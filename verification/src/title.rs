//! Tab and window titles: shortening path-like titles, choosing what a terminal
//! tab shows, and quoting command-line arguments for a shell.
use vstd::prelude::*;

use crate::text::{
    char_is_alphanumeric, chars_eq, chars_of, has_prefix, has_suffix, is_alphanumeric,
    string_of, string_of_range, trim_chars, trim_seq,
};

verus! {

// ── display_title ───────────────────────────────────────────────────────────

/// A path separator on either platform.
pub open spec fn is_sep(c: char) -> bool {
    c == '/' || c == '\\'
}

pub open spec fn is_ascii_alpha(c: char) -> bool {
    ('a' <= c && c <= 'z') || ('A' <= c && c <= 'Z')
}

/// Number of bytes of `c` in UTF-8.
pub open spec fn utf8_width(c: char) -> nat {
    if (c as u32) < 0x80 {
        1
    } else if (c as u32) < 0x800 {
        2
    } else if (c as u32) < 0x10000 {
        3
    } else {
        4
    }
}

/// Number of bytes of `s` in UTF-8 (what `str::len` returns).
pub open spec fn utf8_len(s: Seq<char>) -> nat
    decreases s.len(),
{
    if s.len() == 0 {
        0
    } else {
        utf8_width(s[0]) + utf8_len(s.drop_first())
    }
}

/// `t` is at least three bytes long and starts with an ASCII letter, so a
/// drive prefix such as `C:\` is looked for in bytes 1..3.
pub open spec fn drive_candidate(t: Seq<char>) -> bool {
    utf8_len(t) >= 3 && t.len() >= 1 && is_ascii_alpha(t[0])
}

/// Byte offset 3 of `t` (whose first character is ASCII) falls between characters.
pub open spec fn byte3_is_boundary(t: Seq<char>) -> bool {
    t.len() >= 2 && (utf8_width(t[1]) == 2 || (utf8_width(t[1]) == 1 && t.len() >= 3
        && utf8_width(t[2]) == 1))
}

/// The byte slice `t[1..3]` taken by the drive check would cut a character:
/// the titles on which the title logic panics.
pub open spec fn display_title_panics(t: Seq<char>) -> bool {
    drive_candidate(t) && !byte3_is_boundary(t)
}

/// A (trimmed) title that starts like a Unix, home-relative or Windows path.
pub open spec fn looks_like_path(t: Seq<char>) -> bool {
    (t.len() > 0 && (t[0] == '/' || t[0] == '~')) || (drive_candidate(t) && t.len() >= 3
        && t[1] == ':' && t[2] == '\\')
}

/// `t` without its trailing separators.
pub open spec fn drop_trailing_seps(t: Seq<char>) -> Seq<char>
    decreases t.len(),
{
    if t.len() > 0 && is_sep(t.last()) {
        drop_trailing_seps(t.drop_last())
    } else {
        t
    }
}

/// The characters of `t` after its last separator.
pub open spec fn tail_segment(t: Seq<char>) -> Seq<char>
    decreases t.len(),
{
    if t.len() == 0 || is_sep(t.last()) {
        Seq::empty()
    } else {
        tail_segment(t.drop_last()).push(t.last())
    }
}

/// The last non-empty separator-delimited segment of `t`, or `t` itself when
/// it has none.
pub open spec fn last_segment_or_self(t: Seq<char>) -> Seq<char> {
    let u = drop_trailing_seps(t);
    if u.len() == 0 {
        t
    } else {
        tail_segment(u)
    }
}

/// The title shown for an already trimmed title `t`.
pub open spec fn display_of_trimmed(t: Seq<char>) -> Seq<char> {
    if looks_like_path(t) {
        last_segment_or_self(t)
    } else {
        t
    }
}

/// The title shown for a raw title: trimmed, and cut to its last path segment
/// when it looks like a path.
pub open spec fn display_title_spec(title: Seq<char>) -> Seq<char> {
    display_of_trimmed(trim_seq(title))
}

proof fn lemma_utf8_len_ge_len(s: Seq<char>)
    ensures
        utf8_len(s) >= s.len(),
    decreases s.len(),
{
    if s.len() > 0 {
        lemma_utf8_len_ge_len(s.drop_first());
    }
}

fn utf8_width_of(c: char) -> (w: usize)
    ensures
        w == utf8_width(c),
{
    let u = c as u32;
    if u < 0x80 {
        1
    } else if u < 0x800 {
        2
    } else if u < 0x10000 {
        3
    } else {
        4
    }
}

fn utf8_len_at_least_3(t: &Vec<char>) -> (b: bool)
    ensures
        b == (utf8_len(t@) >= 3),
{
    if t.len() >= 3 {
        proof {
            lemma_utf8_len_ge_len(t@);
        }
        true
    } else if t.len() == 2 {
        proof {
            reveal_with_fuel(utf8_len, 3);
            assert(t@.drop_first().drop_first().len() == 0);
        }
        utf8_width_of(t[0]) + utf8_width_of(t[1]) >= 3
    } else if t.len() == 1 {
        proof {
            reveal_with_fuel(utf8_len, 2);
            assert(t@.drop_first().len() == 0);
        }
        utf8_width_of(t[0]) >= 3
    } else {
        false
    }
}

fn is_ascii_alpha_exec(c: char) -> (b: bool)
    ensures
        b == is_ascii_alpha(c),
{
    ('a' <= c && c <= 'z') || ('A' <= c && c <= 'Z')
}

fn is_sep_exec(c: char) -> (b: bool)
    ensures
        b == is_sep(c),
{
    c == '/' || c == '\\'
}

/// Whether the drive check on `t` would cut a character.
fn display_title_panics_exec(t: &Vec<char>) -> (b: bool)
    ensures
        b == display_title_panics(t@),
{
    if !(utf8_len_at_least_3(t) && t.len() >= 1 && is_ascii_alpha_exec(t[0])) {
        return false;
    }
    if t.len() < 2 {
        return true;
    }
    let w1 = utf8_width_of(t[1]);
    let boundary = w1 == 2 || (w1 == 1 && t.len() >= 3 && utf8_width_of(t[2]) == 1);
    !boundary
}

fn looks_like_path_exec(t: &Vec<char>) -> (b: bool)
    ensures
        b == looks_like_path(t@),
{
    if t.len() > 0 && (t[0] == '/' || t[0] == '~') {
        return true;
    }
    utf8_len_at_least_3(t) && t.len() >= 3 && is_ascii_alpha_exec(t[0]) && t[1] == ':' && t[2]
        == '\\'
}

/// The last non-empty segment of `t`, or `t` itself.
fn last_segment_or_self_exec(t: &Vec<char>) -> (r: Vec<char>)
    ensures
        r@ == last_segment_or_self(t@),
{
    let n = t.len();
    let mut j: usize = n;
    assert(t@.subrange(0, n as int) =~= t@);
    while j > 0 && is_sep_exec(t[j - 1])
        invariant
            0 <= j <= n == t.len(),
            drop_trailing_seps(t@) == drop_trailing_seps(t@.subrange(0, j as int)),
        decreases j,
    {
        assert(t@.subrange(0, j as int).drop_last() =~= t@.subrange(0, j - 1));
        j = j - 1;
    }
    let ghost u = t@.subrange(0, j as int);
    assert(drop_trailing_seps(t@) == u);
    if j == 0 {
        return t.clone();
    }
    let mut i: usize = j;
    assert(u.subrange(0, j as int) =~= u);
    assert(u.subrange(j as int, j as int) =~= Seq::<char>::empty());
    while i > 0 && !is_sep_exec(t[i - 1])
        invariant
            0 <= i <= j <= n == t.len(),
            u == t@.subrange(0, j as int),
            tail_segment(u) == tail_segment(u.subrange(0, i as int)) + u.subrange(i as int, j as int),
        decreases i,
    {
        assert(u.subrange(0, i as int).drop_last() =~= u.subrange(0, i - 1));
        assert(u.subrange(i - 1, j as int) =~= seq![u[i - 1]] + u.subrange(i as int, j as int));
        assert(tail_segment(u.subrange(0, i - 1)).push(u[i - 1]) + u.subrange(i as int, j as int)
            =~= tail_segment(u.subrange(0, i - 1)) + u.subrange(i - 1, j as int));
        i = i - 1;
    }
    assert(tail_segment(u.subrange(0, i as int)) =~= Seq::<char>::empty());
    assert(tail_segment(u) =~= u.subrange(i as int, j as int));
    let mut r: Vec<char> = Vec::new();
    let mut k = i;
    while k < j
        invariant
            i <= k <= j <= n == t.len(),
            r@ == t@.subrange(i as int, k as int),
        decreases j - k,
    {
        r.push(t[k]);
        assert(t@.subrange(i as int, (k + 1) as int) =~= t@.subrange(i as int, k as int).push(t@[k as int]));
        k = k + 1;
    }
    assert(u.subrange(i as int, j as int) =~= t@.subrange(i as int, j as int));
    r
}

fn display_of_trimmed_chars(t: &Vec<char>) -> (r: Vec<char>)
    requires
        !display_title_panics(t@),
    ensures
        r@ == display_of_trimmed(t@),
{
    if looks_like_path_exec(t) {
        last_segment_or_self_exec(t)
    } else {
        t.clone()
    }
}

/// The title shown for an already trimmed title: its last path segment when it
/// looks like a path (`/…`, `~…`, or a drive such as `C:\…`), else the title.
pub fn display_title_of_trimmed(t: &str) -> (r: String)
    requires
        !display_title_panics(t@),
    ensures
        r@ == display_of_trimmed(t@),
{
    let v = chars_of(t);
    let d = display_of_trimmed_chars(&v);
    string_of(&d)
}

/// Trims a terminal title and, when it looks like a path, keeps only its last
/// non-empty segment.
pub fn display_title(title: &str) -> (r: String)
    requires
        !display_title_panics(trim_seq(title@)),
    ensures
        r@ == display_title_spec(title@),
{
    let v = chars_of(title);
    let t = trim_chars(&v);
    let d = display_of_trimmed_chars(&t);
    string_of(&d)
}

/// `display_title`, or `None` on the titles on which its drive check would cut
/// a character.
pub fn try_display_title(title: &str) -> (r: Option<String>)
    ensures
        r is None <==> display_title_panics(trim_seq(title@)),
        r matches Some(s) ==> s@ == display_title_spec(title@),
{
    let v = chars_of(title);
    let t = trim_chars(&v);
    if display_title_panics_exec(&t) {
        None
    } else {
        Some(display_title(title))
    }
}

// ── shell_escape_arg ────────────────────────────────────────────────────────

/// A character that needs no quoting in a shell argument.
pub open spec fn shell_safe_char(c: char) -> bool {
    char_is_alphanumeric(c) || c == '-' || c == '_' || c == '.' || c == '/' || c == ':' || c
        == '@' || c == '='
}

/// A non-empty argument made of characters that need no quoting.
pub open spec fn shell_safe(s: Seq<char>) -> bool {
    s.len() > 0 && forall|i: int| 0 <= i < s.len() ==> shell_safe_char(#[trigger] s[i])
}

/// `s` with every `c` replaced by `r`.
pub open spec fn replace_char(s: Seq<char>, c: char, r: Seq<char>) -> Seq<char>
    decreases s.len(),
{
    if s.len() == 0 {
        Seq::empty()
    } else {
        replace_char(s.drop_last(), c, r) + (if s.last() == c {
            r
        } else {
            seq![s.last()]
        })
    }
}

/// `s` in single quotes, each `'` written as `'\''`.
pub open spec fn posix_quoted(s: Seq<char>) -> Seq<char> {
    seq!['\''] + replace_char(s, '\'', seq!['\'', '\\', '\'', '\'']) + seq!['\'']
}

/// `s` in double quotes, each `"` doubled.
pub open spec fn windows_quoted(s: Seq<char>) -> Seq<char> {
    seq!['"'] + replace_char(s, '"', seq!['"', '"']) + seq!['"']
}

fn is_shell_safe(v: &Vec<char>) -> (b: bool)
    ensures
        b == shell_safe(v@),
        b ==> forall|j: int| 0 <= j < v@.len() ==> !sh_special(#[trigger] v@[j]),
{
    if v.len() == 0 {
        return false;
    }
    let mut i: usize = 0;
    while i < v.len()
        invariant
            0 <= i <= v.len(),
            forall|j: int| 0 <= j < i ==> shell_safe_char(#[trigger] v@[j]),
            forall|j: int| 0 <= j < i ==> !sh_special(#[trigger] v@[j]),
        decreases v.len() - i,
    {
        let c = v[i];
        let alnum = is_alphanumeric(c);
        let ok = alnum || c == '-' || c == '_' || c == '.' || c == '/' || c == ':'
            || c == '@' || c == '=';
        if !ok {
            assert(!shell_safe_char(v@[i as int]));
            return false;
        }
        i = i + 1;
    }
    true
}

/// `open` + `v` with every `c` replaced by `rep` + `close`.
fn quote_with(v: &Vec<char>, quote: char, c: char, rep: &Vec<char>) -> (r: Vec<char>)
    ensures
        r@ == seq![quote] + replace_char(v@, c, rep@) + seq![quote],
{
    let mut r: Vec<char> = Vec::new();
    r.push(quote);
    let mut i: usize = 0;
    while i < v.len()
        invariant
            0 <= i <= v.len(),
            r@ == seq![quote] + replace_char(v@.subrange(0, i as int), c, rep@),
        decreases v.len() - i,
    {
        let ghost before = r@;
        assert(v@.subrange(0, (i + 1) as int).drop_last() =~= v@.subrange(0, i as int));
        if v[i] == c {
            let mut k: usize = 0;
            while k < rep.len()
                invariant
                    0 <= k <= rep.len(),
                    r@ == before + rep@.subrange(0, k as int),
                decreases rep.len() - k,
            {
                r.push(rep[k]);
                assert(rep@.subrange(0, (k + 1) as int) =~= rep@.subrange(0, k as int).push(rep@[k as int]));
                k = k + 1;
            }
            assert(rep@.subrange(0, rep@.len() as int) =~= rep@);
        } else {
            r.push(v[i]);
        }
        assert(r@ =~= seq![quote] + replace_char(v@.subrange(0, (i + 1) as int), c, rep@));
        i = i + 1;
    }
    assert(v@.subrange(0, v@.len() as int) =~= v@);
    r.push(quote);
    r
}

/// Quotes an argument for a POSIX shell: left as is when it is non-empty and
/// made only of alphanumerics and `-_./:@=`, else put in single quotes.
pub fn shell_escape_arg(s: &str) -> (r: String)
    ensures
        r@ == (if shell_safe(s@) {
            s@
        } else {
            posix_quoted(s@)
        }),
        sh_read(r@, false) == Some(s@),
{
    let v = chars_of(s);
    if is_shell_safe(&v) {
        proof {
            lemma_read_literal(v@);
        }
        return string_of(&v);
    }
    proof {
        lemma_shell_reads_escaped_arg_back(s@);
    }
    let rep = vec!['\'', '\\', '\'', '\''];
    let q = quote_with(&v, '\'', '\'', &rep);
    assert(rep@ =~= seq!['\'', '\\', '\'', '\'']);
    string_of(&q)
}

/// Quotes an argument for PowerShell: left as is when it needs no quoting,
/// else put in double quotes with `"` doubled.
pub fn shell_escape_arg_windows(s: &str) -> (r: String)
    ensures
        r@ == (if shell_safe(s@) {
            s@
        } else {
            windows_quoted(s@)
        }),
        !shell_safe(s@) ==> dq_read(r@) == Some(s@),
        shell_safe(s@) ==> r@ == s@,
{
    let v = chars_of(s);
    if is_shell_safe(&v) {
        return string_of(&v);
    }
    proof {
        lemma_windows_quoted_reads_back(s@);
    }
    let rep = vec!['"', '"'];
    let q = quote_with(&v, '"', '"', &rep);
    assert(rep@ =~= seq!['"', '"']);
    string_of(&q)
}


// ── effective_title ─────────────────────────────────────────────────────────

/// The process running in the foreground of a terminal: its executable name and
/// its command line (program first).
#[derive(Debug)]
pub struct ForegroundProcess {
    pub name: String,
    pub cmdline: Vec<String>,
}

/// A foreground process as plain sequences.
pub struct ForegroundView {
    pub name: Seq<char>,
    pub cmdline: Seq<Seq<char>>,
}

impl View for ForegroundProcess {
    type V = ForegroundView;

    open spec fn view(&self) -> ForegroundView {
        ForegroundView { name: self.name@, cmdline: self.cmdline@.map_values(|a: String| a@) }
    }
}

/// Lower-case form of a string, as `str::to_lowercase` computes it (Unicode case mapping).
pub uninterp spec fn str_lowercase(s: Seq<char>) -> Seq<char>;

/// The final component of a path, as `Path::file_name` followed by `OsStr::to_str`
/// gives it.
pub uninterp spec fn path_file_name(p: Seq<char>) -> Option<Seq<char>>;

/// Calls `str::to_lowercase`; the contract claims only that the result is the
/// string's lower-case form, named `str_lowercase`.
#[verifier::external_body]
pub(crate) fn lowercase(s: &str) -> (r: String)
    ensures
        r@ == str_lowercase(s@),
{
    s.to_lowercase()
}

/// Calls `Path::file_name` (then `OsStr::to_str`) on `p` read as a path; the
/// contract claims only that the result is the one named `path_file_name`.
#[verifier::external_body]
pub(crate) fn file_name_of(p: &str) -> (r: Option<String>)
    ensures
        r is None <==> path_file_name(p@) is None,
        r matches Some(f) ==> path_file_name(p@) == Some(f@),
{
    std::path::Path::new(p).file_name().and_then(|n| n.to_str()).map(|n| n.to_string())
}

pub open spec fn opt_view(o: Option<&str>) -> Option<Seq<char>> {
    match o {
        Some(s) => Some(s@),
        None => None,
    }
}

/// `n` without a trailing `.exe`.
pub open spec fn strip_exe(n: Seq<char>) -> Seq<char> {
    if n.len() >= 4 && n.subrange(n.len() - 4, n.len() as int) == seq!['.', 'e', 'x', 'e'] {
        n.subrange(0, n.len() - 4)
    } else {
        n
    }
}

/// An argument that starts with `-`.
pub open spec fn is_option_arg(a: Seq<char>) -> bool {
    a.len() > 0 && a[0] == '-'
}

/// Index of the first argument at or after `i` that is not an option.
pub open spec fn first_arg_from(cmd: Seq<Seq<char>>, i: int) -> Option<int>
    decreases cmd.len() - i,
{
    if i < 0 || i >= cmd.len() {
        None
    } else if !is_option_arg(cmd[i]) {
        Some(i)
    } else {
        first_arg_from(cmd, i + 1)
    }
}

/// The argument a foreground title shows is the first one from `k` on that
/// does not start with `-`: every argument before it (from `k`) does; when
/// there is none, every argument from `k` on starts with `-`.
pub proof fn lemma_first_arg_is_first_non_option(cmd: Seq<Seq<char>>, k: int)
    requires
        0 <= k,
    ensures
        match first_arg_from(cmd, k) {
            Some(i) => k <= i < cmd.len() && !(cmd[i].len() > 0 && cmd[i][0] == '-') && forall|j: int|
                #![trigger cmd[j]]
                k <= j < i ==> cmd[j].len() > 0 && cmd[j][0] == '-',
            None => forall|j: int|
                #![trigger cmd[j]]
                k <= j < cmd.len() ==> cmd[j].len() > 0 && cmd[j][0] == '-',
        },
    decreases cmd.len() - k,
{
    if k < cmd.len() {
        lemma_first_arg_is_first_non_option(cmd, k + 1);
    }
}

/// The title of a foreground process, given the file name (if any) of its first
/// non-option argument: `name arg` with `.exe` dropped from the name.
pub open spec fn foreground_title_with(
    name: Seq<char>,
    cmd: Seq<Seq<char>>,
    arg_file_name: Option<Seq<char>>,
) -> Seq<char> {
    let n = strip_exe(name);
    if cmd.len() > 1 {
        match first_arg_from(cmd, 1) {
            Some(i) => n + seq![' '] + (match arg_file_name {
                Some(f) => f,
                None => cmd[i],
            }),
            None => n,
        }
    } else {
        n
    }
}

/// A foreground title shows the program's name (without `.exe`) and, after a
/// space, the first argument after the program that does not start with `-`
/// (or that argument's file name, when one is given); with no such argument,
/// the name alone.
pub proof fn lemma_foreground_title_shows_first_argument(
    name: Seq<char>,
    cmd: Seq<Seq<char>>,
    arg_file_name: Option<Seq<char>>,
    i: int,
)
    requires
        1 <= i < cmd.len(),
        !(cmd[i].len() > 0 && cmd[i][0] == '-'),
        forall|j: int| #![trigger cmd[j]] 1 <= j < i ==> cmd[j].len() > 0 && cmd[j][0] == '-',
    ensures
        foreground_title_with(name, cmd, arg_file_name) == strip_exe(name) + seq![' '] + (
        match arg_file_name {
            Some(f) => f,
            None => cmd[i],
        }),
{
    lemma_first_arg_is_first_non_option(cmd, 1);
    match first_arg_from(cmd, 1) {
        Some(k) => {
            if k < i {
                assert(cmd[k].len() > 0 && cmd[k][0] == '-');
            } else if k > i {
                assert(cmd[i].len() > 0 && cmd[i][0] == '-');
            }
        },
        None => {
            assert(cmd[i].len() > 0 && cmd[i][0] == '-');
        },
    }
}

/// With every argument after the program starting with `-`, the foreground
/// title is the program's name alone (without `.exe`).
pub proof fn lemma_foreground_title_without_argument(
    name: Seq<char>,
    cmd: Seq<Seq<char>>,
    arg_file_name: Option<Seq<char>>,
)
    requires
        forall|j: int| #![trigger cmd[j]] 1 <= j < cmd.len() ==> cmd[j].len() > 0 && cmd[j][0] == '-',
    ensures
        foreground_title_with(name, cmd, arg_file_name) == strip_exe(name),
{
    lemma_first_arg_is_first_non_option(cmd, 1);
    if let Some(k) = first_arg_from(cmd, 1) {
        assert(cmd[k].len() > 0 && cmd[k][0] == '-');
    }
}

/// The file name of the first non-option argument, where there is one.
pub open spec fn first_arg_file_name(cmd: Seq<Seq<char>>) -> Option<Seq<char>> {
    match first_arg_from(cmd, 1) {
        Some(i) => path_file_name(cmd[i]),
        None => None,
    }
}

/// The title of a foreground process.
pub open spec fn foreground_title(fp: ForegroundView) -> Seq<char> {
    foreground_title_with(fp.name, fp.cmdline, first_arg_file_name(fp.cmdline))
}

/// A title that a shell sets by default (empty, `Session …`, or a shell's own
/// name), given the trimmed title `t` and its lower-case form `tl`.
pub open spec fn is_shell_default(t: Seq<char>, tl: Seq<char>) -> bool {
    t.len() == 0 || "session "@.is_prefix_of(tl) || tl == "powershell.exe"@ || tl
        == "windows powershell"@ || tl == "cmd.exe"@ || tl == "bash"@ || tl == "zsh"@ || tl
        == "sh"@ || tl == "fish"@
}

/// The title of a terminal without a foreground process, given its trimmed title
/// `t`, the lower-case `tl` of `t`, the file name of its working directory, the
/// shell's display name and the name of its workspace.
pub open spec fn shell_title(
    t: Seq<char>,
    tl: Seq<char>,
    cwd_name: Option<Seq<char>>,
    shell: Option<Seq<char>>,
    workspace_name: Option<Seq<char>>,
) -> Seq<char> {
    if !is_shell_default(t, tl) {
        display_of_trimmed(t)
    } else if workspace_name is Some && workspace_name->0.len() > 0 {
        workspace_name->0
    } else if cwd_name is Some && cwd_name->0.len() > 0 {
        cwd_name->0
    } else if shell is Some {
        shell->0
    } else {
        t
    }
}

/// The title a terminal tab shows.
pub open spec fn effective_title_spec(
    title: Seq<char>,
    cwd: Seq<char>,
    fg: Option<ForegroundView>,
    shell: Option<Seq<char>>,
    workspace_name: Option<Seq<char>>,
) -> Seq<char> {
    match fg {
        Some(fp) => foreground_title(fp),
        None => {
            let t = trim_seq(title);
            shell_title(t, str_lowercase(t), path_file_name(cwd), shell, workspace_name)
        },
    }
}

/// The inputs on which `effective_title` would reach the panicking drive check.
pub open spec fn effective_title_panics(title: Seq<char>, fg_present: bool) -> bool {
    let t = trim_seq(title);
    !fg_present && !is_shell_default(t, str_lowercase(t)) && display_title_panics(t)
}

fn first_arg_index(cmd: &Vec<String>) -> (r: Option<usize>)
    ensures
        r matches Some(i) ==> 1 <= i < cmd.len(),
        r matches Some(i) ==> first_arg_from(cmd@.map_values(|a: String| a@), 1) == Some(i as int),
        r is None ==> first_arg_from(cmd@.map_values(|a: String| a@), 1) is None,
        r matches Some(i) ==> !(cmd@[i as int]@.len() > 0 && cmd@[i as int]@[0] == '-'),
        r matches Some(i) ==> forall|j: int|
            1 <= j < i ==> #[trigger] cmd@[j]@.len() > 0 && cmd@[j]@[0] == '-',
        r is None ==> forall|j: int|
            1 <= j < cmd.len() ==> #[trigger] cmd@[j]@.len() > 0 && cmd@[j]@[0] == '-',
{
    let ghost cv = cmd@.map_values(|a: String| a@);
    proof {
        lemma_first_arg_is_first_non_option(cv, 1);
        assert forall|j: int| 0 <= j < cmd.len() implies #[trigger] cmd@[j]@ == cv[j] by {}
    }
    let mut i: usize = 1;
    while i < cmd.len()
        invariant
            1 <= i,
            cv == cmd@.map_values(|a: String| a@),
            first_arg_from(cv, 1) == first_arg_from(cv, i as int),
        decreases cmd.len() - i,
    {
        let a = chars_of(cmd[i].as_str());
        assert(cv[i as int] == a@);
        if !(a.len() > 0 && a[0] == '-') {
            proof {
                assert(first_arg_from(cv, i as int) == Some(i as int));
                lemma_first_arg_is_first_non_option(cv, 1);
                assert forall|j: int| 1 <= j < i implies #[trigger] cmd@[j]@.len() > 0 && cmd@[j]@[0]
                    == '-' by {
                    assert(cmd@[j]@ == cv[j]);
                    assert(cv[j].len() > 0 && cv[j][0] == '-');
                }
            }
            return Some(i);
        }
        i = i + 1;
    }
    proof {
        assert forall|j: int| 1 <= j < cmd.len() implies #[trigger] cmd@[j]@.len() > 0 && cmd@[j]@[0]
            == '-' by {
            assert(cmd@[j]@ == cv[j]);
            assert(cv[j].len() > 0 && cv[j][0] == '-');
        }
    }
    None
}

/// The title of a foreground process given the file name of its first
/// non-option argument (`None` where that argument has none): `name arg`,
/// with `.exe` dropped from the name, or just the name.
pub fn compose_foreground_title(fp: &ForegroundProcess, arg_file_name: Option<&str>) -> (r:
    String)
    ensures
        r@ == foreground_title_with(fp@.name, fp@.cmdline, opt_view(arg_file_name)),
{
    let name = chars_of(fp.name.as_str());
    let exe = chars_of(".exe");
    proof {
        reveal_strlit(".exe");
    }
    assert(exe@ =~= seq!['.', 'e', 'x', 'e']);
    let stem_len = if has_suffix(&name, &exe) {
        name.len() - 4
    } else {
        name.len()
    };
    let mut r = string_of_range(&name, 0, stem_len);
    assert(name@.subrange(0, name@.len() as int) =~= name@);
    assert(r@ == strip_exe(fp@.name));
    if fp.cmdline.len() > 1 {
        match first_arg_index(&fp.cmdline) {
            Some(i) => {
                crate::text::push_char(&mut r, ' ');
                match arg_file_name {
                    Some(f) => crate::text::push_str(&mut r, f),
                    None => crate::text::push_str(&mut r, fp.cmdline[i].as_str()),
                }
                assert(fp@.cmdline[i as int] == fp.cmdline@[i as int]@);
            },
            None => {},
        }
    }
    r
}

/// The title of a foreground process: `name arg`, where `arg` is the file name
/// of the first argument not starting with `-`, with `.exe` dropped from the name.
pub fn foreground_process_title(fp: &ForegroundProcess) -> (r: String)
    ensures
        r@ == foreground_title(fp@),
{
    if fp.cmdline.len() > 1 {
        if let Some(i) = first_arg_index(&fp.cmdline) {
            let f = file_name_of(fp.cmdline[i].as_str());
            assert(fp@.cmdline[i as int] == fp.cmdline@[i as int]@);
            return match f {
                Some(f) => compose_foreground_title(fp, Some(f.as_str())),
                None => compose_foreground_title(fp, None),
            };
        }
    }
    compose_foreground_title(fp, None)
}

fn opt_nonempty(o: Option<&str>) -> (r: bool)
    ensures
        r == (opt_view(o) is Some && opt_view(o)->0.len() > 0),
{
    match o {
        Some(s) => chars_of(s).len() > 0,
        None => false,
    }
}

fn is_shell_default_exec(t: &str, tl: &str) -> (b: bool)
    ensures
        b == is_shell_default(t@, tl@),
{
    let tv = chars_of(t);
    if tv.len() == 0 {
        return true;
    }
    let tlv = chars_of(tl);
    has_prefix(&tlv, &chars_of("session ")) || chars_eq(&tlv, &chars_of("powershell.exe"))
        || chars_eq(&tlv, &chars_of("windows powershell")) || chars_eq(&tlv, &chars_of("cmd.exe"))
        || chars_eq(&tlv, &chars_of("bash")) || chars_eq(&tlv, &chars_of("zsh")) || chars_eq(
        &tlv,
        &chars_of("sh"),
    ) || chars_eq(&tlv, &chars_of("fish"))
}

/// The title of a terminal without a foreground process, given its trimmed title
/// `t`, the lower-case form `tl` of `t`, the file name of its working directory,
/// its shell's display name and its workspace's name: a title the shell did not
/// set by default is shown (as `display_title` shows it); otherwise the
/// workspace name, the directory name, the shell name or `t`, the first that is
/// present and non-empty.
pub fn shell_fallback_title(
    t: &str,
    tl: &str,
    cwd_name: Option<&str>,
    shell: Option<&str>,
    workspace_name: Option<&str>,
) -> (r: String)
    requires
        !is_shell_default(t@, tl@) ==> !display_title_panics(t@),
    ensures
        r@ == shell_title(t@, tl@, opt_view(cwd_name), opt_view(shell), opt_view(workspace_name)),
{
    if !is_shell_default_exec(t, tl) {
        return display_title_of_trimmed(t);
    }
    if opt_nonempty(workspace_name) {
        return workspace_name.unwrap().to_string();
    }
    if opt_nonempty(cwd_name) {
        return cwd_name.unwrap().to_string();
    }
    if let Some(sk) = shell {
        return sk.to_string();
    }
    t.to_string()
}

/// The title a terminal tab shows: the foreground process (`name arg`) when
/// there is one; else the terminal's own title when the shell did not set it
/// by default; else the workspace name, the working directory's name, the
/// shell's display name, or the trimmed title.
pub fn effective_title(
    title: &str,
    cwd: &str,
    fg: Option<&ForegroundProcess>,
    shell: Option<&str>,
    workspace_name: Option<&str>,
) -> (r: String)
    requires
        !effective_title_panics(title@, fg is Some),
    ensures
        r@ == effective_title_spec(
            title@,
            cwd@,
            match fg {
                Some(f) => Some(f@),
                None => None,
            },
            opt_view(shell),
            opt_view(workspace_name),
        ),
{
    if let Some(fp) = fg {
        return foreground_process_title(fp);
    }
    let v = chars_of(title);
    let tv = trim_chars(&v);
    let t = string_of(&tv);
    let tl = lowercase(t.as_str());
    let cwd_name = file_name_of(cwd);
    match cwd_name {
        Some(d) => shell_fallback_title(t.as_str(), tl.as_str(), Some(d.as_str()), shell, workspace_name),
        None => shell_fallback_title(t.as_str(), tl.as_str(), None, shell, workspace_name),
    }
}

/// `effective_title`, or `None` on the inputs on which its drive check would cut
/// a character.
pub fn try_effective_title(
    title: &str,
    cwd: &str,
    fg: Option<&ForegroundProcess>,
    shell: Option<&str>,
    workspace_name: Option<&str>,
) -> (r: Option<String>)
    ensures
        r is None <==> effective_title_panics(title@, fg is Some),
        r matches Some(s) ==> s@ == effective_title_spec(
            title@,
            cwd@,
            match fg {
                Some(f) => Some(f@),
                None => None,
            },
            opt_view(shell),
            opt_view(workspace_name),
        ),
{
    if fg.is_none() {
        let v = chars_of(title);
        let tv = trim_chars(&v);
        let t = string_of(&tv);
        let tl = lowercase(t.as_str());
        if !is_shell_default_exec(t.as_str(), tl.as_str()) && display_title_panics_exec(&tv) {
            return None;
        }
    }
    Some(effective_title(title, cwd, fg, shell, workspace_name))
}

// ── What the titles promise ────────────────────────────────────────────────

proof fn lemma_tail_segment_no_sep(t: Seq<char>)
    ensures
        forall|i: int| 0 <= i < tail_segment(t).len() ==> !is_sep(#[trigger] tail_segment(t)[i]),
        t.len() > 0 && !is_sep(t.last()) ==> tail_segment(t).len() > 0,
    decreases t.len(),
{
    if t.len() > 0 && !is_sep(t.last()) {
        lemma_tail_segment_no_sep(t.drop_last());
        let p = tail_segment(t.drop_last());
        assert forall|i: int| 0 <= i < p.push(t.last()).len() implies !is_sep(
            #[trigger] p.push(t.last())[i],
        ) by {
            if i < p.len() {
                assert(p.push(t.last())[i] == p[i]);
            }
        }
    }
}

proof fn lemma_drop_trailing_seps_end(t: Seq<char>)
    ensures
        drop_trailing_seps(t).len() > 0 ==> !is_sep(drop_trailing_seps(t).last()),
    decreases t.len(),
{
    if t.len() > 0 && is_sep(t.last()) {
        lemma_drop_trailing_seps_end(t.drop_last());
    }
}

/// A title that looks like a path with a non-empty segment is shown as its
/// last segment: non-empty and free of `/` and `\`.
pub proof fn lemma_path_title_is_one_segment(title: Seq<char>)
    requires
        looks_like_path(trim_seq(title)),
        drop_trailing_seps(trim_seq(title)).len() > 0,
    ensures
        display_title_spec(title).len() > 0,
        forall|i: int| 0 <= i < display_title_spec(title).len() ==> !is_sep(#[trigger] display_title_spec(title)[i]),
{
    let u = drop_trailing_seps(trim_seq(title));
    lemma_drop_trailing_seps_end(trim_seq(title));
    lemma_tail_segment_no_sep(u);
}

/// With a foreground process the tab shows that process, whatever the
/// terminal's title, directory, shell and workspace.
pub proof fn lemma_foreground_process_wins(
    fp: ForegroundView,
    title1: Seq<char>,
    cwd1: Seq<char>,
    shell1: Option<Seq<char>>,
    ws1: Option<Seq<char>>,
    title2: Seq<char>,
    cwd2: Seq<char>,
    shell2: Option<Seq<char>>,
    ws2: Option<Seq<char>>,
)
    ensures
        effective_title_spec(title1, cwd1, Some(fp), shell1, ws1) == foreground_title(fp),
        effective_title_spec(title1, cwd1, Some(fp), shell1, ws1) == effective_title_spec(
            title2,
            cwd2,
            Some(fp),
            shell2,
            ws2,
        ),
{
}

/// A title the shell did not set by default is shown as `display_title`
/// shows it, whatever the directory, the shell and the workspace.
pub proof fn lemma_real_title_shown(
    title: Seq<char>,
    cwd: Seq<char>,
    shell: Option<Seq<char>>,
    ws: Option<Seq<char>>,
)
    requires
        !is_shell_default(trim_seq(title), str_lowercase(trim_seq(title))),
    ensures
        effective_title_spec(title, cwd, None, shell, ws) == display_title_spec(title),
{
}

/// For a title the shell set by default, a non-empty workspace name is shown,
/// whatever the directory and the shell.
pub proof fn lemma_workspace_name_wins_over_directory(
    title: Seq<char>,
    cwd: Seq<char>,
    shell: Option<Seq<char>>,
    ws: Seq<char>,
)
    requires
        is_shell_default(trim_seq(title), str_lowercase(trim_seq(title))),
        ws.len() > 0,
    ensures
        effective_title_spec(title, cwd, None, shell, Some(ws)) == ws,
{
}

/// An argument that needs quoting is put between single quotes, and an empty
/// argument is passed as `''` rather than vanishing.
pub proof fn lemma_quoted_args_are_delimited(s: Seq<char>)
    ensures
        !shell_safe(Seq::<char>::empty()),
        posix_quoted(Seq::<char>::empty()) == seq!['\'', '\''],
        posix_quoted(s).len() >= 2,
        posix_quoted(s)[0] == '\'',
        posix_quoted(s).last() == '\'',
{
    assert(replace_char(Seq::<char>::empty(), '\'', seq!['\'', '\\', '\'', '\'']) =~= Seq::<char>::empty());
    assert(posix_quoted(Seq::<char>::empty()) =~= seq!['\'', '\'']);
}


// ── How a POSIX shell reads a word back ─────────────────────────────────────

/// A character a POSIX shell does not take literally outside quotes: a blank,
/// an operator, a quote, an escape, or the start of an expansion or pattern.
pub open spec fn sh_special(c: char) -> bool {
    c == ' ' || c == '\t' || c == '\n' || c == '|' || c == '&' || c == ';' || c == '<' || c == '>'
        || c == '(' || c == ')' || c == '$' || c == '`' || c == '\\' || c == '"' || c == '\''
        || c == '*' || c == '?' || c == '[' || c == '#' || c == '~'
}

/// `o` with `c` put in front of the word it holds.
pub open spec fn sh_prepend(c: char, o: Option<Seq<char>>) -> Option<Seq<char>> {
    match o {
        Some(t) => Some(seq![c] + t),
        None => None,
    }
}

/// The single word a POSIX shell reads from `w` after quote removal, with no
/// expansion, starting inside single quotes when `quoted`; `None` when `w` is
/// not exactly one such word (an unquoted special character, an unclosed quote
/// or a dangling escape).
pub open spec fn sh_read(w: Seq<char>, quoted: bool) -> Option<Seq<char>>
    decreases w.len(),
{
    if w.len() == 0 {
        if quoted {
            None
        } else {
            Some(Seq::empty())
        }
    } else {
        let c = w[0];
        let rest = w.drop_first();
        if quoted {
            if c == '\'' {
                sh_read(rest, false)
            } else {
                sh_prepend(c, sh_read(rest, true))
            }
        } else if c == '\'' {
            sh_read(rest, true)
        } else if c == '\\' {
            if rest.len() > 0 && rest[0] != '\n' {
                sh_prepend(rest[0], sh_read(rest.drop_first(), false))
            } else {
                None
            }
        } else if sh_special(c) {
            None
        } else {
            sh_prepend(c, sh_read(rest, false))
        }
    }
}

/// The quote replacement of `'` in a single-quoted word.
pub open spec fn quote_piece(c: char) -> Seq<char> {
    if c == '\'' {
        seq!['\'', '\\', '\'', '\'']
    } else {
        seq![c]
    }
}

proof fn lemma_replace_append(a: Seq<char>, b: Seq<char>)
    ensures
        replace_char(a + b, '\'', seq!['\'', '\\', '\'', '\''])
            == replace_char(a, '\'', seq!['\'', '\\', '\'', '\'']) + replace_char(
            b,
            '\'',
            seq!['\'', '\\', '\'', '\''],
        ),
    decreases b.len(),
{
    let q = seq!['\'', '\\', '\'', '\''];
    if b.len() == 0 {
        assert(a + b =~= a);
        assert(replace_char(b, '\'', q) =~= Seq::<char>::empty());
        assert(replace_char(a, '\'', q) + replace_char(b, '\'', q) =~= replace_char(a, '\'', q));
    } else {
        assert((a + b).drop_last() =~= a + b.drop_last());
        assert((a + b).last() == b.last());
        lemma_replace_append(a, b.drop_last());
        assert(replace_char(a + b, '\'', q) =~= replace_char(a, '\'', q) + replace_char(b, '\'', q));
    }
}

proof fn lemma_replace_front(s: Seq<char>)
    requires
        s.len() > 0,
    ensures
        replace_char(s, '\'', seq!['\'', '\\', '\'', '\'']) == quote_piece(s[0]) + replace_char(
            s.drop_first(),
            '\'',
            seq!['\'', '\\', '\'', '\''],
        ),
{
    let q = seq!['\'', '\\', '\'', '\''];
    assert(s =~= seq![s[0]] + s.drop_first());
    lemma_replace_append(seq![s[0]], s.drop_first());
    assert(seq![s[0]].drop_last() =~= Seq::<char>::empty());
    assert(replace_char(Seq::<char>::empty(), '\'', q) =~= Seq::<char>::empty());
    assert(replace_char(seq![s[0]], '\'', q) =~= quote_piece(s[0]));
}

/// Inside single quotes, the quoted form of `s` followed by the closing quote
/// and `t` reads as `s` followed by what `t` reads as.
proof fn lemma_read_quoted(s: Seq<char>, t: Seq<char>)
    ensures
        sh_read(replace_char(s, '\'', seq!['\'', '\\', '\'', '\'']) + seq!['\''] + t, true) == (
        match sh_read(t, false) {
            Some(u) => Some(s + u),
            None => None,
        }),
    decreases s.len(),
{
    let q = seq!['\'', '\\', '\'', '\''];
    let w = replace_char(s, '\'', q) + seq!['\''] + t;
    if s.len() == 0 {
        assert(replace_char(s, '\'', q) =~= Seq::<char>::empty());
        assert(w =~= seq!['\''] + t);
        assert(w.drop_first() =~= t);
        match sh_read(t, false) {
            Some(u) => {
                assert(s + u =~= u);
            },
            None => {},
        }
    } else {
        let c = s[0];
        let s1 = s.drop_first();
        let w1 = replace_char(s1, '\'', q) + seq!['\''] + t;
        lemma_replace_front(s);
        lemma_read_quoted(s1, t);
        if c == '\'' {
            assert(w =~= seq!['\'', '\\', '\'', '\''] + w1);
            assert(w[0] == '\'');
            let r1 = w.drop_first();
            assert(r1 =~= seq!['\\', '\'', '\''] + w1);
            assert(r1[0] == '\\');
            assert(r1.drop_first()[0] == '\'');
            let r2 = r1.drop_first().drop_first();
            assert(r2 =~= seq!['\''] + w1);
            assert(r2[0] == '\'');
            assert(r2.drop_first() =~= w1);
            assert(sh_read(r2, false) == sh_read(w1, true));
            assert(sh_read(r1, false) == sh_prepend('\'', sh_read(r2, false)));
            assert(sh_read(w, true) == sh_read(r1, false));
        } else {
            assert(w =~= seq![c] + w1);
            assert(w[0] == c);
            assert(w.drop_first() =~= w1);
            assert(sh_read(w, true) == sh_prepend(c, sh_read(w1, true)));
        }
        match sh_read(t, false) {
            Some(u) => {
                assert(s + u =~= seq![c] + (s1 + u));
            },
            None => {},
        }
    }
}

/// A word of characters the shell takes literally reads as itself.
proof fn lemma_read_literal(s: Seq<char>)
    requires
        forall|i: int| 0 <= i < s.len() ==> !sh_special(#[trigger] s[i]),
    ensures
        sh_read(s, false) == Some(s),
    decreases s.len(),
{
    if s.len() > 0 {
        assert(!sh_special(s[0]));
        lemma_read_literal(s.drop_first());
        assert(s =~= seq![s[0]] + s.drop_first());
    }
}

/// A POSIX shell reads what `shell_escape_arg` gives back as the argument
/// itself, as one word with nothing expanded: always when it quotes, and when
/// it leaves the argument bare, as long as the argument holds no character the
/// shell treats specially (no shell-safe character is one, unless the platform
/// counts it as alphanumeric).
pub proof fn lemma_shell_reads_escaped_arg_back(s: Seq<char>)
    ensures
        sh_read(posix_quoted(s), false) == Some(s),
        (forall|i: int| 0 <= i < s.len() ==> !sh_special(#[trigger] s[i])) ==> sh_read(s, false)
            == Some(s),
        forall|c: char| #[trigger] shell_safe_char(c) && !char_is_alphanumeric(c) ==> !sh_special(c),
{
    let q = seq!['\'', '\\', '\'', '\''];
    let w = posix_quoted(s);
    lemma_read_quoted(s, Seq::<char>::empty());
    assert(w[0] == '\'');
    assert(w.drop_first() =~= replace_char(s, '\'', q) + seq!['\''] + Seq::<char>::empty());
    assert(sh_read(Seq::<char>::empty(), false) == Some(Seq::<char>::empty()));
    assert(s + Seq::<char>::empty() =~= s);
    if forall|i: int| 0 <= i < s.len() ==> !sh_special(#[trigger] s[i]) {
        lemma_read_literal(s);
    }
}


// ── How a double-quoted word reads back ─────────────────────────────────────

/// The text after the opening quote of a double-quoted word in which a doubled
/// `"` stands for one `"` and every other character for itself; the word must
/// end at its closing quote. `None` when it does not.
pub open spec fn dq_body(w: Seq<char>) -> Option<Seq<char>>
    decreases w.len(),
{
    if w.len() == 0 {
        None
    } else if w[0] == '"' {
        if w.len() == 1 {
            Some(Seq::empty())
        } else if w[1] == '"' {
            sh_prepend('"', dq_body(w.subrange(2, w.len() as int)))
        } else {
            None
        }
    } else {
        sh_prepend(w[0], dq_body(w.drop_first()))
    }
}

/// The text of a double-quoted word (`None` when `w` is not one).
pub open spec fn dq_read(w: Seq<char>) -> Option<Seq<char>> {
    if w.len() > 0 && w[0] == '"' {
        dq_body(w.drop_first())
    } else {
        None
    }
}

proof fn lemma_replace_dq_front(s: Seq<char>)
    requires
        s.len() > 0,
    ensures
        replace_char(s, '"', seq!['"', '"']) == (if s[0] == '"' {
            seq!['"', '"']
        } else {
            seq![s[0]]
        }) + replace_char(s.drop_first(), '"', seq!['"', '"']),
    decreases s.len(),
{
    let d = seq!['"', '"'];
    if s.len() == 1 {
        assert(s.drop_first() =~= Seq::<char>::empty());
        assert(s.drop_last() =~= Seq::<char>::empty());
        assert(replace_char(Seq::<char>::empty(), '"', d) =~= Seq::<char>::empty());
        assert(s.last() == s[0]);
        if s[0] == '"' {
            assert(replace_char(s, '"', d) =~= Seq::<char>::empty() + d);
        } else {
            assert(replace_char(s, '"', d) =~= Seq::<char>::empty() + seq![s[0]]);
        }
    } else {
        let head = if s[0] == '"' {
            d
        } else {
            seq![s[0]]
        };
        let last = if s.last() == '"' {
            d
        } else {
            seq![s.last()]
        };
        lemma_replace_dq_front(s.drop_last());
        assert(s.drop_last().drop_first() =~= s.drop_first().drop_last());
        assert(s.drop_first().last() == s.last());
        assert(s.drop_last()[0] == s[0]);
        assert(replace_char(s.drop_first(), '"', d) == replace_char(s.drop_first().drop_last(), '"', d)
            + last);
        assert(replace_char(s, '"', d) =~= head + replace_char(s.drop_first(), '"', d));
    }
}

proof fn lemma_dq_body_reads_back(s: Seq<char>)
    ensures
        dq_body(replace_char(s, '"', seq!['"', '"']) + seq!['"']) == Some(s),
    decreases s.len(),
{
    let d = seq!['"', '"'];
    let w = replace_char(s, '"', d) + seq!['"'];
    if s.len() == 0 {
        assert(replace_char(s, '"', d) =~= Seq::<char>::empty());
        assert(w =~= seq!['"']);
        assert(s =~= Seq::<char>::empty());
    } else {
        let s1 = s.drop_first();
        let w1 = replace_char(s1, '"', d) + seq!['"'];
        lemma_replace_dq_front(s);
        lemma_dq_body_reads_back(s1);
        if s[0] == '"' {
            assert(w =~= seq!['"', '"'] + w1);
            assert(w.subrange(2, w.len() as int) =~= w1);
            assert(dq_body(w) == sh_prepend('"', dq_body(w1)));
        } else {
            assert(w =~= seq![s[0]] + w1);
            assert(w.drop_first() =~= w1);
            assert(dq_body(w) == sh_prepend(s[0], dq_body(w1)));
        }
        assert(seq![s[0]] + s1 =~= s);
    }
}

/// A quoted PowerShell argument reads back as the argument: between the outer
/// double quotes each doubled `"` stands for one `"`, and every other
/// character, `'` included, is the argument's own, in order.
pub proof fn lemma_windows_quoted_reads_back(s: Seq<char>)
    ensures
        dq_read(windows_quoted(s)) == Some(s),
{
    let d = seq!['"', '"'];
    let w = windows_quoted(s);
    lemma_dq_body_reads_back(s);
    assert(w[0] == '"');
    assert(w.drop_first() =~= replace_char(s, '"', d) + seq!['"']);
}

} // verus!
