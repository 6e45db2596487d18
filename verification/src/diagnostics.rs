//! Host environment report: what the session looks like and how it is
//! rendered for humans.
use vstd::prelude::*;
use vstd::string::*;
use crate::hardware::seq_join;
use crate::text::{has_prefix, starts_with};

verus! {

/// Snapshot of the host operating system, session and application version.
#[derive(Debug, Clone, PartialEq, Eq)]
pub struct DiagnosticReport {
    pub os_name: String,
    pub kernel_version: String,
    pub wayland_display: Option<String>,
    pub x11_display: Option<String>,
    pub session_type: Option<String>,
    pub desktop_session: Option<String>,
    pub rustc_version: String,
    pub application_version: String,
}

/// ASCII lower-case of a character; other characters are kept.
pub open spec fn ascii_lower(c: char) -> char {
    if 'A' <= c && c <= 'Z' {
        ((c as u32) + 32) as char
    } else {
        c
    }
}

/// Equality of two strings when ASCII letters are compared case-insensitively.
pub open spec fn eq_ignore_ascii_case(a: Seq<char>, b: Seq<char>) -> bool {
    a.len() == b.len() && forall|i: int| 0 <= i < a.len() ==> ascii_lower(#[trigger] a[i])
        == ascii_lower(b[i])
}

fn lower_char(c: char) -> (r: char)
    ensures
        r == ascii_lower(c),
{
    if 'A' <= c && c <= 'Z' {
        let b = (c as u8) + 32;
        proof {
            assert(c as u32 as u8 == c as u8);
        }
        b as char
    } else {
        c
    }
}

/// Case-insensitive (ASCII) string comparison.
pub fn str_eq_ignore_ascii_case(a: &str, b: &str) -> (r: bool)
    ensures
        r == eq_ignore_ascii_case(a@, b@),
{
    let n = a.unicode_len();
    if n != b.unicode_len() {
        return false;
    }
    let mut i: usize = 0;
    while i < n
        invariant
            n == a@.len(),
            n == b@.len(),
            i <= n,
            forall|k: int| 0 <= k < i ==> ascii_lower(#[trigger] a@[k]) == ascii_lower(b@[k]),
        decreases n - i,
    {
        if lower_char(a.get_char(i)) != lower_char(b.get_char(i)) {
            return false;
        }
        i = i + 1;
    }
    true
}

/// `s`, or `fallback` when absent.
pub open spec fn or_text(s: Option<String>, fallback: Seq<char>) -> Seq<char> {
    match s {
        Some(v) => v@,
        None => fallback,
    }
}

/// The Markdown rendering of a report.
pub open spec fn report_markdown(r: DiagnosticReport) -> Seq<char> {
    "# FluxCut Diagnostic Report\n- **OS:** "@ + r.os_name@ + "\n- **Kernel:** "@
        + r.kernel_version@ + "\n- **Wayland Display:** "@ + or_text(r.wayland_display, "None"@)
        + "\n- **X11 Display:** "@ + or_text(r.x11_display, "None"@) + "\n- **Session Type:** "@
        + or_text(r.session_type, "Unknown"@) + "\n- **Desktop Environment:** "@ + or_text(
        r.desktop_session,
        "Unknown"@,
    ) + "\n- **App Version:** "@ + r.application_version@ + "\n"@
}

fn append_or(s: &mut String, v: &Option<String>, fallback: &str)
    ensures
        final(s)@ == old(s)@ + or_text(*v, fallback@),
{
    match v {
        Some(x) => s.append(x.as_str()),
        None => s.append(fallback),
    }
}

/// A Wayland session: a Wayland display is set, or the session type is
/// "wayland" in any letter case.
pub open spec fn wayland_session(wayland_display: Option<String>, session_type: Option<String>) -> bool {
    wayland_display is Some || (session_type matches Some(s) && eq_ignore_ascii_case(
        s@,
        "wayland"@,
    ))
}

/// Whether the display variables describe a Wayland session.
pub fn is_wayland_session(wayland_display: &Option<String>, session_type: &Option<String>) -> (r: bool)
    ensures
        r == wayland_session(*wayland_display, *session_type),
{
    if wayland_display.is_some() {
        return true;
    }
    match session_type {
        Some(s) => str_eq_ignore_ascii_case(s.as_str(), "wayland"),
        None => false,
    }
}

impl DiagnosticReport {
    /// A Wayland session is active: a Wayland display is set, or the session
    /// type is "wayland" in any letter case.
    pub fn is_wayland_active(&self) -> (r: bool)
        ensures
            r == wayland_session(self.wayland_display, self.session_type),
    {
        is_wayland_session(&self.wayland_display, &self.session_type)
    }

    /// The report as human-readable Markdown.
    pub fn format_markdown(&self) -> (r: String)
        ensures
            r@ == report_markdown(*self),
    {
        let mut s = String::from_str("# FluxCut Diagnostic Report\n- **OS:** ");
        s.append(self.os_name.as_str());
        s.append("\n- **Kernel:** ");
        s.append(self.kernel_version.as_str());
        s.append("\n- **Wayland Display:** ");
        append_or(&mut s, &self.wayland_display, "None");
        s.append("\n- **X11 Display:** ");
        append_or(&mut s, &self.x11_display, "None");
        s.append("\n- **Session Type:** ");
        append_or(&mut s, &self.session_type, "Unknown");
        s.append("\n- **Desktop Environment:** ");
        append_or(&mut s, &self.desktop_session, "Unknown");
        s.append("\n- **App Version:** ");
        s.append(self.application_version.as_str());
        s.append("\n");
        assert(s@ =~= report_markdown(*self));
        s
    }
}

/// Index of the first line feed in `s` at or after `i`, or the length of `s`.
pub open spec fn line_end(s: Seq<char>, i: int) -> int
    decreases s.len() - i,
{
    if i < 0 || i >= s.len() {
        s.len() as int
    } else if s[i] == '\n' {
        i
    } else {
        line_end(s, i + 1)
    }
}

pub proof fn lemma_line_end(s: Seq<char>, i: int)
    requires
        0 <= i <= s.len(),
    ensures
        i <= line_end(s, i) <= s.len(),
        line_end(s, i) < s.len() ==> s[line_end(s, i)] == '\n',
        forall|k: int| i <= k < line_end(s, i) ==> s[k] != '\n',
    decreases s.len() - i,
{
    if i < s.len() && s[i] != '\n' {
        lemma_line_end(s, i + 1);
    }
}

/// The line of `s` that starts at `i`, without its line ending: a line
/// feed, or a carriage return and a line feed (as `str::lines` reads lines).
pub open spec fn line_at(s: Seq<char>, i: int) -> Seq<char> {
    let e = line_end(s, i);
    let l = s.subrange(i, e);
    if e < s.len() && l.len() > 0 && l.last() == '\r' {
        l.drop_last()
    } else {
        l
    }
}

/// The first line of `s`, from the one starting at `i` on, that begins with `p`.
pub open spec fn first_line_with(s: Seq<char>, p: Seq<char>, i: int) -> Option<Seq<char>>
    decreases s.len() + 1 - i,
{
    if i < 0 || i >= s.len() {
        None
    } else if has_prefix(line_at(s, i), p) {
        Some(line_at(s, i))
    } else {
        proof {
            lemma_line_end(s, i);
        }
        first_line_with(s, p, line_end(s, i) + 1)
    }
}

/// `s` with every leading repetition of the non-empty `p` removed.
pub open spec fn strip_prefix_all(s: Seq<char>, p: Seq<char>) -> Seq<char>
    decreases s.len(),
{
    if p.len() > 0 && has_prefix(s, p) {
        strip_prefix_all(s.subrange(p.len() as int, s.len() as int), p)
    } else {
        s
    }
}

/// `s` without leading `c`s.
pub open spec fn trim_start_char(s: Seq<char>, c: char) -> Seq<char>
    decreases s.len(),
{
    if s.len() > 0 && s[0] == c {
        trim_start_char(s.drop_first(), c)
    } else {
        s
    }
}

/// `s` without trailing `c`s.
pub open spec fn trim_end_char(s: Seq<char>, c: char) -> Seq<char>
    decreases s.len(),
{
    if s.len() > 0 && s.last() == c {
        trim_end_char(s.drop_last(), c)
    } else {
        s
    }
}

/// The distribution name of an os-release file: the value of its first
/// `PRETTY_NAME=` line, without surrounding double quotes.
pub open spec fn pretty_name(content: Seq<char>) -> Option<Seq<char>> {
    match first_line_with(content, "PRETTY_NAME="@, 0) {
        Some(l) => Some(trim_end_char(trim_start_char(strip_prefix_all(l, "PRETTY_NAME="@), '"'), '"')),
        None => None,
    }
}

fn find_line_end(s: &str, n: usize, i: usize) -> (r: usize)
    requires
        n == s@.len(),
        i <= n,
    ensures
        r == line_end(s@, i as int),
{
    let mut k = i;
    while k < n
        invariant
            i <= k <= n,
            n == s@.len(),
            line_end(s@, i as int) == line_end(s@, k as int),
        decreases n - k,
    {
        if s.get_char(k) == '\n' {
            return k;
        }
        k = k + 1;
    }
    k
}

fn line_slice(s: &str, n: usize, i: usize) -> (r: (&str, usize))
    requires
        n == s@.len(),
        i < n,
    ensures
        r.0@ == line_at(s@, i as int),
        r.1 == line_end(s@, i as int),
{
    let e = find_line_end(s, n, i);
    proof {
        lemma_line_end(s@, i as int);
    }
    if e < n && e > i && s.get_char(e - 1) == '\r' {
        let l = s.substring_char(i, e - 1);
        assert(l@ =~= s@.subrange(i as int, e as int).drop_last());
        (l, e)
    } else {
        (s.substring_char(i, e), e)
    }
}

fn strip_all<'a>(s: &'a str, p: &str) -> (r: &'a str)
    requires
        p@.len() > 0,
    ensures
        r@ == strip_prefix_all(s@, p@),
    decreases s@.len(),
{
    if starts_with(s, p) {
        let m = p.unicode_len();
        let n = s.unicode_len();
        strip_all(s.substring_char(m, n), p)
    } else {
        s
    }
}

fn trim_quotes(s: &str) -> (r: &str)
    ensures
        r@ == trim_end_char(trim_start_char(s@, '"'), '"'),
{
    let n = s.unicode_len();
    let mut a: usize = 0;
    assert(s@.subrange(0, n as int) =~= s@);
    while a < n && s.get_char(a) == '"'
        invariant
            a <= n,
            n == s@.len(),
            trim_start_char(s@, '"') == trim_start_char(s@.subrange(a as int, n as int), '"'),
        decreases n - a,
    {
        assert(s@.subrange(a as int, n as int).drop_first() =~= s@.subrange(a + 1, n as int));
        a = a + 1;
    }
    let ghost t = s@.subrange(a as int, n as int);
    assert(trim_start_char(s@, '"') == t);
    let mut b: usize = n;
    assert(t.subrange(0, (b - a) as int) =~= t);
    while b > a && s.get_char(b - 1) == '"'
        invariant
            a <= b <= n,
            n == s@.len(),
            t == s@.subrange(a as int, n as int),
            trim_end_char(t, '"') == trim_end_char(s@.subrange(a as int, b as int), '"'),
        decreases b,
    {
        assert(s@.subrange(a as int, b as int).drop_last() =~= s@.subrange(a as int, b - 1));
        b = b - 1;
    }
    s.substring_char(a, b)
}

/// The distribution name in the text of an os-release file (see `pretty_name`).
pub fn os_pretty_name(content: &str) -> (r: Option<String>)
    ensures
        opt_text(r) == pretty_name(content@),
{
    let n = content.unicode_len();
    let mut i: usize = 0;
    while i < n
        invariant
            i <= n,
            n == content@.len(),
            first_line_with(content@, "PRETTY_NAME="@, 0) == first_line_with(content@, "PRETTY_NAME="@, i as int),
        decreases n - i,
    {
        proof {
            reveal_strlit("PRETTY_NAME=");
        }
        let (line, e) = line_slice(content, n, i);
        if starts_with(line, "PRETTY_NAME=") {
            let v = trim_quotes(strip_all(line, "PRETTY_NAME="));
            return Some(String::from_str(v));
        }
        proof {
            lemma_line_end(content@, i as int);
        }
        assert(!has_prefix(line_at(content@, i as int), "PRETTY_NAME="@));
        assert(first_line_with(content@, "PRETTY_NAME="@, i as int) == first_line_with(
            content@,
            "PRETTY_NAME="@,
            e + 1,
        ));
        if e >= n {
            assert(first_line_with(content@, "PRETTY_NAME="@, e + 1) is None);
            i = n;
        } else {
            i = e + 1;
        }
    }
    None
}

/// The text of an optional string.
pub open spec fn opt_text(s: Option<String>) -> Option<Seq<char>> {
    match s {
        Some(x) => Some(x@),
        None => None,
    }
}

/// White space as `char::is_whitespace` defines it (Unicode White_Space).
pub open spec fn is_white(c: char) -> bool {
    let u = c as u32;
    (0x09 <= u <= 0x0d) || u == 0x20 || u == 0x85 || u == 0xa0 || u == 0x1680 || (0x2000 <= u
        <= 0x200a) || u == 0x2028 || u == 0x2029 || u == 0x202f || u == 0x205f || u == 0x3000
}

fn white(c: char) -> (r: bool)
    ensures
        r == is_white(c),
{
    let u = c as u32;
    (0x09 <= u && u <= 0x0d) || u == 0x20 || u == 0x85 || u == 0xa0 || u == 0x1680 || (0x2000 <= u
        && u <= 0x200a) || u == 0x2028 || u == 0x2029 || u == 0x202f || u == 0x205f || u == 0x3000
}

/// First index at or after `i` whose character is (or, if `space` is false,
/// is not) white space, or the length of `s`.
pub open spec fn scan(s: Seq<char>, i: int, space: bool) -> int
    decreases s.len() - i,
{
    if i < 0 || i >= s.len() {
        s.len() as int
    } else if is_white(s[i]) == space {
        i
    } else {
        scan(s, i + 1, space)
    }
}

pub proof fn lemma_scan(s: Seq<char>, i: int, space: bool)
    requires
        0 <= i <= s.len(),
    ensures
        i <= scan(s, i, space) <= s.len(),
        scan(s, i, space) < s.len() ==> is_white(s[scan(s, i, space)]) == space,
    decreases s.len() - i,
{
    if i < s.len() && is_white(s[i]) != space {
        lemma_scan(s, i + 1, space);
    }
}

/// The white-space separated words of `s` from position `i` on (as
/// `str::split_whitespace` yields them).
pub open spec fn words_from(s: Seq<char>, i: int) -> Seq<Seq<char>>
    decreases s.len() - i,
{
    if i < 0 || i >= s.len() {
        Seq::empty()
    } else {
        let j = scan(s, i, false);
        if j >= s.len() {
            Seq::empty()
        } else {
            let k = scan(s, j, true);
            proof {
                lemma_scan(s, i, false);
                lemma_scan(s, j, true);
            }
            seq![s.subrange(j, k)] + words_from(s, k)
        }
    }
}

/// The kernel description in the text of `/proc/version`: its first three
/// words, separated by single spaces.
pub open spec fn kernel_words(content: Seq<char>) -> Seq<char> {
    let w = words_from(content, 0);
    seq_join(if w.len() > 3 { w.take(3) } else { w }, " "@)
}

fn scan_exec(s: &str, n: usize, i: usize, space: bool) -> (r: usize)
    requires
        n == s@.len(),
        i <= n,
    ensures
        r == scan(s@, i as int, space),
{
    let mut k = i;
    while k < n
        invariant
            i <= k <= n,
            n == s@.len(),
            scan(s@, i as int, space) == scan(s@, k as int, space),
        decreases n - k,
    {
        if white(s.get_char(k)) == space {
            return k;
        }
        k = k + 1;
    }
    k
}

/// The kernel description in the text of `/proc/version` (see `kernel_words`).
pub fn kernel_summary(content: &str) -> (r: String)
    ensures
        r@ == kernel_words(content@),
{
    proof {
        reveal_strlit(" ");
    }
    let n = content.unicode_len();
    let ghost all = words_from(content@, 0);
    let mut out = String::new();
    let mut count: usize = 0;
    let mut i: usize = 0;
    while count < 3 && i < n
        invariant
            i <= n,
            n == content@.len(),
            count <= 3,
            all == words_from(content@, 0),
            count <= all.len(),
            all.subrange(count as int, all.len() as int) == words_from(content@, i as int),
            out@ == seq_join(all.take(count as int), " "@),
        decreases n - i, 3 - count,
    {
        let j = scan_exec(content, n, i, false);
        if j >= n {
            i = n;
            proof {
                assert(words_from(content@, i as int).len() == 0);
            }
        } else {
            let k = scan_exec(content, n, j, true);
            proof {
                lemma_scan(content@, i as int, false);
                lemma_scan(content@, j as int, true);
            }
            let w = content.substring_char(j, k);
            if count > 0 {
                out.append(" ");
            }
            out.append(w);
            proof {
                let rest = all.subrange(count as int, all.len() as int);
                assert(rest.len() > 0);
                assert(rest[0] == w@);
                assert(rest[0] == all[count as int]);
                assert(all[count as int] == w@);
                assert(all.take(count + 1).drop_last() =~= all.take(count as int));
                assert(rest.drop_first() =~= all.subrange(count + 1, all.len() as int));
            }
            count = count + 1;
            i = k;
            if i == j {
                i = n;
            }
        }
    }
    proof {
        if count < 3 {
            assert(all.subrange(count as int, all.len() as int).len() == 0);
            assert(all.take(count as int) =~= all);
        } else if all.len() == 3 {
            assert(all.take(3) =~= all);
        }
    }
    out
}

impl DiagnosticReport {
    /// A report from what the environment shows: the text of the os-release
    /// file and of `/proc/version` (when they could be read), the name of the
    /// operating system to fall back on, the display and session variables,
    /// and the application's version.
    pub fn from_environment(
        os_release: Option<String>,
        os_fallback: &str,
        proc_version: Option<String>,
        wayland_display: Option<String>,
        x11_display: Option<String>,
        session_type: Option<String>,
        desktop_session: Option<String>,
        version: &str,
    ) -> (r: DiagnosticReport)
        ensures
            r.os_name@ == (match os_release {
                Some(c) => match pretty_name(c@) {
                    Some(name) => name,
                    None => os_fallback@,
                },
                None => os_fallback@,
            }),
            r.kernel_version@ == (match proc_version {
                Some(v) => kernel_words(v@),
                None => "Unknown Kernel"@,
            }),
            r.wayland_display == wayland_display,
            r.x11_display == x11_display,
            r.session_type == session_type,
            r.desktop_session == desktop_session,
            r.rustc_version@ == version@,
            r.application_version@ == version@,
    {
        let os_name = match &os_release {
            Some(c) => match os_pretty_name(c.as_str()) {
                Some(name) => name,
                None => String::from_str(os_fallback),
            },
            None => String::from_str(os_fallback),
        };
        let kernel_version = match &proc_version {
            Some(v) => kernel_summary(v.as_str()),
            None => String::from_str("Unknown Kernel"),
        };
        DiagnosticReport {
            os_name,
            kernel_version,
            wayland_display,
            x11_display,
            session_type,
            desktop_session,
            rustc_version: String::from_str(version),
            application_version: String::from_str(version),
        }
    }
}

} // verus!
