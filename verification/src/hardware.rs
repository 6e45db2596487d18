//! GPU, display server and media acceleration capabilities of the host,
//! derived from what a probe of the system found.
use vstd::prelude::*;
use vstd::string::*;
use crate::text::{
    decimal, dedup_adjacent, dedup_strings, ends_with, has_prefix, has_suffix, push_decimal,
    sort_lex, sort_strings, starts_with,
};
use crate::diagnostics::{is_wayland_session, wayland_session};

verus! {

/// Errors of hardware probing.
#[derive(Debug, PartialEq)]
pub enum HardwareError {
    /// Querying devices failed with the given system message.
    IoError(String),
    /// Capability detection failed.
    ProbeError(String),
}

/// Detected graphics and multimedia capabilities.
#[derive(Debug, Clone, PartialEq, Eq)]
pub struct GpuCapabilities {
    /// A Wayland compositor is active.
    pub wayland_available: bool,
    /// DRM render nodes or cards are present.
    pub dri_available: bool,
    /// Detected DRM device paths.
    pub dri_nodes: Vec<String>,
    /// Vulkan ICD manifests are installed.
    pub vulkan_icd_available: bool,
    /// Detected Vulkan ICD manifest file names.
    pub vulkan_icd_files: Vec<String>,
    /// VA-API drivers were detected (and DRI is available).
    pub vaapi_available: bool,
    /// Detected VA-API driver libraries.
    pub vaapi_drivers: Vec<String>,
    /// DMA-BUF sharing is likely usable.
    pub dmabuf_available: bool,
}

/// Items joined by `sep`.
pub open spec fn seq_join(items: Seq<Seq<char>>, sep: Seq<char>) -> Seq<char>
    decreases items.len(),
{
    if items.len() == 0 {
        Seq::empty()
    } else if items.len() == 1 {
        items[0]
    } else {
        seq_join(items.drop_last(), sep) + sep + items.last()
    }
}

/// Names listed as "a, b, c", or "none" when there are none.
pub open spec fn name_list(items: Seq<String>) -> Seq<char> {
    if items.len() == 0 {
        "none"@
    } else {
        seq_join(items.map_values(|s: String| s@), ", "@)
    }
}

fn append_name_list(s: &mut String, items: &Vec<String>)
    ensures
        final(s)@ == old(s)@ + name_list(items@),
{
    if items.len() == 0 {
        s.append("none");
        return;
    }
    let ghost views = items@.map_values(|x: String| x@);
    let ghost start = s@;
    s.append(items[0].as_str());
    assert(views.take(1) =~= seq![views[0]]);
    let mut i: usize = 1;
    while i < items.len()
        invariant
            1 <= i <= items@.len(),
            views == items@.map_values(|x: String| x@),
            s@ == start + seq_join(views.take(i as int), ", "@),
        decreases items@.len() - i,
    {
        s.append(", ");
        s.append(items[i].as_str());
        assert(views.take(i + 1).drop_last() =~= views.take(i as int));
        assert(s@ =~= start + seq_join(views.take(i + 1), ", "@));
        i = i + 1;
    }
    assert(views.take(i as int) =~= views);
}

/// The Markdown summary of a capability set.
pub open spec fn capabilities_markdown(c: GpuCapabilities) -> Seq<char> {
    "### Hardware & GPU Capabilities\n- **Wayland Display:** "@ + (if c.wayland_available {
        "Active"@
    } else {
        "Inactive / X11 Fallback"@
    }) + "\n- **DRI Subsystem:** "@ + (if c.dri_available {
        "Available"@
    } else {
        "Not detected"@
    }) + " ("@ + decimal(c.dri_nodes@.len()) + " nodes found)\n- **Vulkan ICD:** "@ + (
    if c.vulkan_icd_available {
        "Supported"@
    } else {
        "Not found"@
    }) + " ("@ + name_list(c.vulkan_icd_files@) + ")\n- **VA-API Hardware Acceleration:** "@ + (
    if c.vaapi_available {
        "Available"@
    } else {
        "Not detected / Software fallback"@
    }) + " ("@ + name_list(c.vaapi_drivers@) + ")\n- **DMA-BUF Presentation Path:** "@ + (
    if c.dmabuf_available {
        "Supported (Zero-copy eligible)"@
    } else {
        "Disabled / CPU fallback"@
    }) + "\n"@
}

impl GpuCapabilities {
    /// Capabilities implied by what a probe found: DRI is available when a
    /// DRM node exists, Vulkan when a manifest exists, VA-API when a driver
    /// exists and DRI is available, and DMA-BUF when DRI is available together
    /// with Wayland, Vulkan or VA-API.
    pub fn from_probe(
        wayland_available: bool,
        dri_nodes: Vec<String>,
        vulkan_icd_files: Vec<String>,
        vaapi_drivers: Vec<String>,
    ) -> (r: GpuCapabilities)
        ensures
            r.wayland_available == wayland_available,
            r.dri_nodes@ == dri_nodes@,
            r.vulkan_icd_files@ == vulkan_icd_files@,
            r.vaapi_drivers@ == vaapi_drivers@,
            r.dri_available == (dri_nodes@.len() > 0),
            r.vulkan_icd_available == (vulkan_icd_files@.len() > 0),
            r.vaapi_available == (vaapi_drivers@.len() > 0 && dri_nodes@.len() > 0),
            r.dmabuf_available == (dri_nodes@.len() > 0 && (wayland_available
                || vulkan_icd_files@.len() > 0 || (vaapi_drivers@.len() > 0 && dri_nodes@.len()
                > 0))),
    {
        let dri_available = !dri_nodes.is_empty();
        let vulkan_icd_available = !vulkan_icd_files.is_empty();
        let vaapi_available = !vaapi_drivers.is_empty() && dri_available;
        let dmabuf_available = dri_available && (wayland_available || vulkan_icd_available
            || vaapi_available);
        GpuCapabilities {
            wayland_available,
            dri_available,
            dri_nodes,
            vulkan_icd_available,
            vulkan_icd_files,
            vaapi_available,
            vaapi_drivers,
            dmabuf_available,
        }
    }

    /// Human-readable Markdown summary for the capabilities dialog and CLI.
    pub fn summary_markdown(&self) -> (r: String)
        ensures
            r@ == capabilities_markdown(*self),
    {
        let mut s = String::from_str("### Hardware & GPU Capabilities\n- **Wayland Display:** ");
        if self.wayland_available {
            s.append("Active");
        } else {
            s.append("Inactive / X11 Fallback");
        }
        s.append("\n- **DRI Subsystem:** ");
        if self.dri_available {
            s.append("Available");
        } else {
            s.append("Not detected");
        }
        s.append(" (");
        push_decimal(&mut s, self.dri_nodes.len() as u64);
        s.append(" nodes found)\n- **Vulkan ICD:** ");
        if self.vulkan_icd_available {
            s.append("Supported");
        } else {
            s.append("Not found");
        }
        s.append(" (");
        append_name_list(&mut s, &self.vulkan_icd_files);
        s.append(")\n- **VA-API Hardware Acceleration:** ");
        if self.vaapi_available {
            s.append("Available");
        } else {
            s.append("Not detected / Software fallback");
        }
        s.append(" (");
        append_name_list(&mut s, &self.vaapi_drivers);
        s.append(")\n- **DMA-BUF Presentation Path:** ");
        if self.dmabuf_available {
            s.append("Supported (Zero-copy eligible)");
        } else {
            s.append("Disabled / CPU fallback");
        }
        s.append("\n");
        assert(s@ =~= capabilities_markdown(*self));
        s
    }
}

/// A directory entry of `/dev/dri` that is a DRM node: a render node or a card.
pub open spec fn is_dri_node_name(name: Seq<char>) -> bool {
    has_prefix(name, "renderD"@) || has_prefix(name, "card"@)
}

/// A Vulkan ICD manifest file name.
pub open spec fn is_vulkan_manifest(name: Seq<char>) -> bool {
    has_suffix(name, ".json"@)
}

/// A VA-API driver library file name.
pub open spec fn is_vaapi_driver(name: Seq<char>) -> bool {
    has_suffix(name, "_drv_video.so"@) || has_suffix(name, "vdpau_drv_video.so"@)
}

/// Paths of the entries `(file name, path)` that are DRM nodes, in order.
pub open spec fn dri_entry_paths(entries: Seq<(String, String)>) -> Seq<String>
    decreases entries.len(),
{
    if entries.len() == 0 {
        Seq::empty()
    } else {
        let rest = dri_entry_paths(entries.drop_last());
        if is_dri_node_name(entries.last().0@) {
            rest.push(entries.last().1)
        } else {
            rest
        }
    }
}

/// The Vulkan manifests among `names`, in order.
pub open spec fn manifest_names(names: Seq<String>) -> Seq<String>
    decreases names.len(),
{
    if names.len() == 0 {
        Seq::empty()
    } else if is_vulkan_manifest(names.last()@) {
        manifest_names(names.drop_last()).push(names.last())
    } else {
        manifest_names(names.drop_last())
    }
}

/// The VA-API drivers among `names`, in order.
pub open spec fn driver_names(names: Seq<String>) -> Seq<String>
    decreases names.len(),
{
    if names.len() == 0 {
        Seq::empty()
    } else if is_vaapi_driver(names.last()@) {
        driver_names(names.drop_last()).push(names.last())
    } else {
        driver_names(names.drop_last())
    }
}

/// The DRM node paths among the `/dev/dri` entries `(file name, path)`, sorted.
pub fn dri_node_paths(entries: Vec<(String, String)>) -> (r: Vec<String>)
    ensures
        r@ == sort_lex(dri_entry_paths(entries@)),
{
    let mut out: Vec<String> = Vec::new();
    let mut i: usize = 0;
    assert(entries@.take(0) =~= Seq::<(String, String)>::empty());
    while i < entries.len()
        invariant
            i <= entries@.len(),
            out@ == dri_entry_paths(entries@.take(i as int)),
        decreases entries@.len() - i,
    {
        assert(entries@.take(i + 1).drop_last() =~= entries@.take(i as int));
        assert(entries@.take(i + 1).last() == entries@[i as int]);
        let e = &entries[i];
        if starts_with(e.0.as_str(), "renderD") || starts_with(e.0.as_str(), "card") {
            out.push(e.1.clone());
        }
        i = i + 1;
    }
    assert(entries@.take(i as int) =~= entries@);
    sort_strings(&mut out);
    out
}

/// The Vulkan ICD manifests among the file names `names`, sorted and
/// without repeats.
pub fn vulkan_manifest_names(names: Vec<String>) -> (r: Vec<String>)
    ensures
        r@ == dedup_adjacent(sort_lex(manifest_names(names@))),
{
    let mut out: Vec<String> = Vec::new();
    let mut i: usize = 0;
    assert(names@.take(0) =~= Seq::<String>::empty());
    while i < names.len()
        invariant
            i <= names@.len(),
            out@ == manifest_names(names@.take(i as int)),
        decreases names@.len() - i,
    {
        assert(names@.take(i + 1).drop_last() =~= names@.take(i as int));
        assert(names@.take(i + 1).last() == names@[i as int]);
        if ends_with(names[i].as_str(), ".json") {
            out.push(names[i].clone());
        }
        i = i + 1;
    }
    assert(names@.take(i as int) =~= names@);
    sort_strings(&mut out);
    dedup_strings(out)
}

/// The VA-API driver libraries among the file names `names`, sorted and
/// without repeats.
pub fn vaapi_driver_names(names: Vec<String>) -> (r: Vec<String>)
    ensures
        r@ == dedup_adjacent(sort_lex(driver_names(names@))),
{
    let mut out: Vec<String> = Vec::new();
    let mut i: usize = 0;
    assert(names@.take(0) =~= Seq::<String>::empty());
    while i < names.len()
        invariant
            i <= names@.len(),
            out@ == driver_names(names@.take(i as int)),
        decreases names@.len() - i,
    {
        assert(names@.take(i + 1).drop_last() =~= names@.take(i as int));
        assert(names@.take(i + 1).last() == names@[i as int]);
        if ends_with(names[i].as_str(), "_drv_video.so") || ends_with(
            names[i].as_str(),
            "vdpau_drv_video.so",
        ) {
            out.push(names[i].clone());
        }
        i = i + 1;
    }
    assert(names@.take(i as int) =~= names@);
    sort_strings(&mut out);
    dedup_strings(out)
}

impl GpuCapabilities {
    /// Capabilities from what the system shows: the Wayland and session
    /// variables, the entries `(file name, path)` of `/dev/dri`, and the
    /// file names found in the Vulkan manifest and VA-API driver directories.
    pub fn from_listing(
        wayland_display: Option<String>,
        session_type: Option<String>,
        dri_entries: Vec<(String, String)>,
        icd_names: Vec<String>,
        driver_files: Vec<String>,
    ) -> (r: GpuCapabilities)
        ensures
            r.wayland_available == wayland_session(wayland_display, session_type),
            r.dri_nodes@ == sort_lex(dri_entry_paths(dri_entries@)),
            r.vulkan_icd_files@ == dedup_adjacent(sort_lex(manifest_names(icd_names@))),
            r.vaapi_drivers@ == dedup_adjacent(sort_lex(driver_names(driver_files@))),
            r.dri_available == (r.dri_nodes@.len() > 0),
            r.vulkan_icd_available == (r.vulkan_icd_files@.len() > 0),
            r.vaapi_available == (r.vaapi_drivers@.len() > 0 && r.dri_available),
            r.dmabuf_available == (r.dri_available && (r.wayland_available
                || r.vulkan_icd_available || r.vaapi_available)),
    {
        let wayland = is_wayland_session(&wayland_display, &session_type);
        GpuCapabilities::from_probe(
            wayland,
            dri_node_paths(dri_entries),
            vulkan_manifest_names(icd_names),
            vaapi_driver_names(driver_files),
        )
    }
}

/// One row of the capabilities dialog: title, subtitle and icon name.
#[derive(Debug, Clone, PartialEq, Eq)]
pub struct InfoRow {
    pub title: String,
    pub subtitle: String,
    pub icon: String,
}

/// `items` joined with `sep` (empty when there are none).
pub open spec fn joined(items: Seq<String>, sep: Seq<char>) -> Seq<char> {
    seq_join(items.map_values(|s: String| s@), sep)
}

fn append_joined(s: &mut String, items: &Vec<String>, sep: &str)
    ensures
        final(s)@ == old(s)@ + joined(items@, sep@),
{
    let ghost views = items@.map_values(|x: String| x@);
    if items.len() == 0 {
        assert(old(s)@ + joined(items@, sep@) =~= old(s)@);
        return;
    }
    let ghost start = s@;
    s.append(items[0].as_str());
    assert(views.take(1) =~= seq![views[0]]);
    let mut i: usize = 1;
    while i < items.len()
        invariant
            1 <= i <= items@.len(),
            views == items@.map_values(|x: String| x@),
            s@ == start + seq_join(views.take(i as int), sep@),
        decreases items@.len() - i,
    {
        s.append(sep);
        s.append(items[i].as_str());
        assert(views.take(i + 1).drop_last() =~= views.take(i as int));
        assert(s@ =~= start + seq_join(views.take(i + 1), sep@));
        i = i + 1;
    }
    assert(views.take(i as int) =~= views);
}

fn info_row(title: &str, subtitle: String, icon: &str) -> (r: InfoRow)
    ensures
        r.title@ == title@,
        r.subtitle@ == subtitle@,
        r.icon@ == icon@,
{
    InfoRow { title: String::from_str(title), subtitle, icon: String::from_str(icon) }
}

/// The rows of the capabilities dialog, in order: the display environment
/// (operating system, Wayland, session type) and the graphics and video
/// acceleration (DRI, Vulkan, VA-API, DMA-BUF).
pub open spec fn capability_dialog_rows(c: GpuCapabilities, os_name: Seq<char>, session_type: Option<String>) -> Seq<
    (Seq<char>, Seq<char>, Seq<char>),
> {
    seq![
        ("Operating System"@, os_name, "drive-harddisk-symbolic"@),
        ("Wayland Display"@, if c.wayland_available {
            "Active (Wayland native)"@
        } else {
            "Inactive (X11 fallback session)"@
        }, if c.wayland_available {
            "emblem-default-symbolic"@
        } else {
            "dialog-warning-symbolic"@
        }),
        ("Session Type"@, match session_type {
            Some(st) => st@,
            None => "Unknown"@,
        }, "preferences-system-symbolic"@),
        ("Direct Rendering Infrastructure (DRI)"@, if c.dri_available {
            decimal(c.dri_nodes@.len()) + " device nodes available"@
        } else {
            "No DRI nodes detected in /dev/dri"@
        }, "video-display-symbolic"@),
        ("Vulkan Support"@, if c.vulkan_icd_available {
            "ICD manifests: "@ + joined(c.vulkan_icd_files@, ", "@)
        } else {
            "No Vulkan ICD manifests detected"@
        }, "applications-graphics-symbolic"@),
        ("VA-API Hardware Decode"@, if c.vaapi_available {
            "Driver: "@ + joined(c.vaapi_drivers@, ", "@)
        } else {
            "No VA-API drivers found (Software fallback will be used)"@
        }, "media-playback-start-symbolic"@),
        ("DMA-BUF Zero-Copy Presentation"@, if c.dmabuf_available {
            "Eligible for GdkDmabufTextureBuilder zero-copy direct scanout"@
        } else {
            "Fallback to GdkMemoryTexture (CPU frame copy)"@
        }, "system-run-symbolic"@),
    ]
}

/// The text of each row.
pub open spec fn row_texts(rows: Seq<InfoRow>) -> Seq<(Seq<char>, Seq<char>, Seq<char>)> {
    rows.map_values(|r: InfoRow| (r.title@, r.subtitle@, r.icon@))
}

impl GpuCapabilities {
    /// The rows of the capabilities dialog (see `capability_dialog_rows`), given the
    /// operating system's name and the session type.
    pub fn dialog_rows(&self, os_name: &str, session_type: &Option<String>) -> (r: Vec<InfoRow>)
        ensures
            row_texts(r@) == capability_dialog_rows(*self, os_name@, *session_type),
    {
        let mut rows: Vec<InfoRow> = Vec::new();
        rows.push(info_row("Operating System", String::from_str(os_name), "drive-harddisk-symbolic"));
        let (w_sub, w_icon) = if self.wayland_available {
            ("Active (Wayland native)", "emblem-default-symbolic")
        } else {
            ("Inactive (X11 fallback session)", "dialog-warning-symbolic")
        };
        rows.push(info_row("Wayland Display", String::from_str(w_sub), w_icon));
        let session = match session_type {
            Some(st) => st.clone(),
            None => String::from_str("Unknown"),
        };
        rows.push(info_row("Session Type", session, "preferences-system-symbolic"));
        let dri = if self.dri_available {
            let mut d = String::new();
            push_decimal(&mut d, self.dri_nodes.len() as u64);
            d.append(" device nodes available");
            d
        } else {
            String::from_str("No DRI nodes detected in /dev/dri")
        };
        rows.push(info_row("Direct Rendering Infrastructure (DRI)", dri, "video-display-symbolic"));
        let vulkan = if self.vulkan_icd_available {
            let mut v = String::from_str("ICD manifests: ");
            append_joined(&mut v, &self.vulkan_icd_files, ", ");
            v
        } else {
            String::from_str("No Vulkan ICD manifests detected")
        };
        rows.push(info_row("Vulkan Support", vulkan, "applications-graphics-symbolic"));
        let vaapi = if self.vaapi_available {
            let mut v = String::from_str("Driver: ");
            append_joined(&mut v, &self.vaapi_drivers, ", ");
            v
        } else {
            String::from_str("No VA-API drivers found (Software fallback will be used)")
        };
        rows.push(info_row("VA-API Hardware Decode", vaapi, "media-playback-start-symbolic"));
        let dmabuf = if self.dmabuf_available {
            "Eligible for GdkDmabufTextureBuilder zero-copy direct scanout"
        } else {
            "Fallback to GdkMemoryTexture (CPU frame copy)"
        };
        rows.push(info_row("DMA-BUF Zero-Copy Presentation", String::from_str(dmabuf), "system-run-symbolic"));
        assert(row_texts(rows@) =~= capability_dialog_rows(*self, os_name@, *session_type));
        rows
    }
}

} // verus!
