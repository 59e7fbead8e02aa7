//! Interpreting a package manager's query output.
//!
//! Asking a manager whether a package is installed means running a query
//! command (built by `install_check_command`) and reading its exit status
//! and standard output.  Running the command is host work; reading the
//! answer out of the text is pure logic and lives here: most managers
//! answer with their exit status, dpkg with an `ii` status line, scoop
//! with a name column, and the rest by mentioning the package at all.

use vstd::prelude::*;
use crate::config::PackageManager;
use crate::expr::{chars_to_string, str_chars};

verus! {

/// The length of the first line: the characters before the first newline.
pub open spec fn line_len(s: Seq<char>) -> nat
    decreases s.len(),
{
    if s.len() > 0 && s[0] != '\n' {
        (1 + line_len(s.drop_first())) as nat
    } else {
        0
    }
}

/// The first line never runs past the end.
proof fn lemma_line_len_le(s: Seq<char>)
    ensures
        line_len(s) <= s.len(),
    decreases s.len(),
{
    if s.len() > 0 && s[0] != '\n' {
        lemma_line_len_le(s.drop_first());
    }
}

/// A newline-free prefix of known extent pins `line_len` down.
proof fn lemma_line_len_prefix(s: Seq<char>, k: int)
    requires
        0 <= k <= s.len(),
        forall|m: int| 0 <= m < k ==> s[m] != '\n',
        k == s.len() || s[k] == '\n',
    ensures
        line_len(s) == k,
    decreases k,
{
    if k > 0 {
        lemma_line_len_prefix(s.drop_first(), k - 1);
    }
}

/// A line as the original saw it: any trailing carriage return dropped.
pub open spec fn strip_cr(l: Seq<char>) -> Seq<char> {
    if l.len() > 0 && l.last() == '\r' {
        l.drop_last()
    } else {
        l
    }
}

/// The lines of a text, split on newlines, trailing carriage returns
/// dropped, and no empty line after a trailing newline.
pub open spec fn spec_lines(s: Seq<char>) -> Seq<Seq<char>>
    decreases s.len(),
    via spec_lines_dec
{
    if s.len() == 0 {
        Seq::empty()
    } else {
        let l = line_len(s) as int;
        if l == s.len() {
            seq![strip_cr(s)]
        } else {
            seq![strip_cr(s.take(l))] + spec_lines(s.skip(l + 1))
        }
    }
}

/// Termination of the line splitter: each step consumes the line and its
/// newline.
#[via_fn]
proof fn spec_lines_dec(s: Seq<char>) {
    lemma_line_len_le(s);
}

/// Splits a text into its lines, per `spec_lines`.
pub fn split_lines(text: &String) -> (r: Vec<String>)
    ensures
        r.deep_view() == spec_lines(text@),
{
    let chars = str_chars(text.as_str());
    let n: usize = chars.len();
    let mut out: Vec<String> = Vec::new();
    let mut pos: usize = 0;
    proof {
        assert(chars@.skip(0) =~= chars@);
        assert(out.deep_view() + spec_lines(chars@.skip(0)) =~= spec_lines(chars@));
    }
    while pos < n
        invariant
            pos <= n,
            n == chars@.len(),
            chars@ == text@,
            spec_lines(text@) =~= out.deep_view() + spec_lines(chars@.skip(pos as int)),
        decreases n - pos,
    {
        let ghost rem = chars@.skip(pos as int);
        let mut j: usize = pos;
        while j < n && chars[j] != '\n'
            invariant
                pos <= j <= n,
                n == chars@.len(),
                forall|m: int| pos <= m < j ==> chars@[m] != '\n',
            decreases n - j,
        {
            j = j + 1;
        }
        proof {
            assert(forall|m: int| 0 <= m < j - pos ==> rem[m] != '\n');
            lemma_line_len_prefix(rem, j - pos);
            assert(line_len(rem) == j - pos);
        }
        let line = if j > pos && chars[j - 1] == '\r' {
            chars_to_string(&chars, pos, j - 1)
        } else {
            chars_to_string(&chars, pos, j)
        };
        proof {
            assert(rem.take(j - pos) =~= chars@.subrange(pos as int, j as int));
            if j == n {
                assert(rem.take(j - pos) =~= rem);
            }
            assert(line@ =~= strip_cr(rem.take(j - pos)));
        }
        let ghost pre = out.deep_view();
        out.push(line);
        proof {
            assert(out.deep_view() =~= pre.push(line@));
        }
        if j == n {
            pos = n;
            proof {
                assert(spec_lines(rem) =~= seq![strip_cr(rem)]);
                assert(chars@.skip(n as int) =~= Seq::<char>::empty());
                assert(out.deep_view() + spec_lines(chars@.skip(pos as int)) =~= pre + spec_lines(
                    rem,
                ));
            }
        } else {
            proof {
                assert(rem.skip(j - pos + 1) =~= chars@.skip(j as int + 1));
                assert(spec_lines(rem) =~= seq![strip_cr(rem.take(j - pos))] + spec_lines(
                    chars@.skip(j as int + 1),
                ));
                assert(out.deep_view() + spec_lines(chars@.skip(j as int + 1)) =~= pre
                    + spec_lines(rem));
            }
            pos = j + 1;
        }
    }
    proof {
        assert(chars@.skip(n as int) =~= Seq::<char>::empty());
        assert(out.deep_view() + Seq::<Seq<char>>::empty() =~= out.deep_view());
    }
    out
}

/// Whitespace inside a line, as the column splitter sees it.
pub open spec fn is_column_space(c: char) -> bool {
    c == ' ' || c == '\t' || c == '\r'
}

/// The length of a line's leading whitespace.
pub open spec fn space_len(s: Seq<char>) -> nat
    decreases s.len(),
{
    if s.len() > 0 && is_column_space(s[0]) {
        (1 + space_len(s.drop_first())) as nat
    } else {
        0
    }
}

/// The leading whitespace never runs past the end.
proof fn lemma_space_len_le(s: Seq<char>)
    ensures
        space_len(s) <= s.len(),
    decreases s.len(),
{
    if s.len() > 0 && is_column_space(s[0]) {
        lemma_space_len_le(s.drop_first());
    }
}

/// A whitespace prefix of known extent pins `space_len` down.
proof fn lemma_space_len_prefix(s: Seq<char>, k: int)
    requires
        0 <= k <= s.len(),
        forall|m: int| 0 <= m < k ==> is_column_space(s[m]),
        k == s.len() || !is_column_space(s[k]),
    ensures
        space_len(s) == k,
    decreases k,
{
    if k > 0 {
        lemma_space_len_prefix(s.drop_first(), k - 1);
    }
}

/// The length of a line's first whitespace-free run.
pub open spec fn nonspace_len(s: Seq<char>) -> nat
    decreases s.len(),
{
    if s.len() > 0 && !is_column_space(s[0]) {
        (1 + nonspace_len(s.drop_first())) as nat
    } else {
        0
    }
}

/// The first run never runs past the end.
proof fn lemma_nonspace_len_le(s: Seq<char>)
    ensures
        nonspace_len(s) <= s.len(),
    decreases s.len(),
{
    if s.len() > 0 && !is_column_space(s[0]) {
        lemma_nonspace_len_le(s.drop_first());
    }
}

/// A whitespace-free prefix of known extent pins `nonspace_len` down.
proof fn lemma_nonspace_len_prefix(s: Seq<char>, k: int)
    requires
        0 <= k <= s.len(),
        forall|m: int| 0 <= m < k ==> !is_column_space(s[m]),
        k == s.len() || is_column_space(s[k]),
    ensures
        nonspace_len(s) == k,
    decreases k,
{
    if k > 0 {
        lemma_nonspace_len_prefix(s.drop_first(), k - 1);
    }
}

/// A line's first whitespace-separated column (empty on a blank line).
pub open spec fn first_token(l: Seq<char>) -> Seq<char> {
    let st = space_len(l) as int;
    let rest = l.skip(st);
    rest.take(nonspace_len(rest) as int)
}

/// Extracts a line's first column, per `first_token`.
pub fn first_token_string(line: &String) -> (r: String)
    ensures
        r@ == first_token(line@),
{
    let chars = str_chars(line.as_str());
    let n: usize = chars.len();
    let mut st: usize = 0;
    while st < n && is_space_char(chars[st])
        invariant
            st <= n,
            n == chars@.len(),
            chars@ == line@,
            forall|m: int| 0 <= m < st ==> is_column_space(chars@[m]),
        decreases n - st,
    {
        st = st + 1;
    }
    proof {
        lemma_space_len_prefix(chars@, st as int);
    }
    let mut j: usize = st;
    while j < n && !is_space_char(chars[j])
        invariant
            st <= j <= n,
            n == chars@.len(),
            chars@ == line@,
            forall|m: int| st <= m < j ==> !is_column_space(chars@[m]),
        decreases n - j,
    {
        j = j + 1;
    }
    proof {
        let rest = chars@.skip(st as int);
        assert(forall|m: int| 0 <= m < j - st ==> !is_column_space(rest[m]));
        lemma_nonspace_len_prefix(rest, j - st);
        assert(rest.take(j - st) =~= chars@.subrange(st as int, j as int));
    }
    chars_to_string(&chars, st, j)
}

/// Whether `c` is column whitespace; see `is_column_space`.
fn is_space_char(c: char) -> (r: bool)
    ensures
        r == is_column_space(c),
{
    c == ' ' || c == '\t' || c == '\r'
}

/// Whether `p` stands at offset `off` inside `s`.
pub open spec fn sub_at(s: Seq<char>, p: Seq<char>, off: int) -> bool {
    0 <= off && off + p.len() <= s.len() && s.subrange(off, off + p.len() as int) == p
}

/// Whether `p` occurs contiguously inside `s`.
pub open spec fn spec_contains_sub(s: Seq<char>, p: Seq<char>) -> bool {
    exists|off: int| #[trigger] sub_at(s, p, off)
}

/// Substring search, per `spec_contains_sub`.
pub fn contains_substring(hay: &String, needle: &String) -> (r: bool)
    ensures
        r == spec_contains_sub(hay@, needle@),
{
    let h = str_chars(hay.as_str());
    let nd = str_chars(needle.as_str());
    let hn: usize = h.len();
    let nn: usize = nd.len();
    if nn > hn {
        proof {
            assert(!spec_contains_sub(hay@, needle@)) by {
                assert(forall|off: int| !#[trigger] sub_at(hay@, needle@, off));
            }
        }
        return false;
    }
    let mut off: usize = 0;
    while off <= hn - nn
        invariant
            nn <= hn,
            off <= hn - nn + 1,
            hn == h@.len(),
            nn == nd@.len(),
            h@ == hay@,
            nd@ == needle@,
            forall|o: int| 0 <= o < off ==> !#[trigger] sub_at(hay@, needle@, o),
        decreases hn - nn - off + 1,
    {
        let mut j: usize = 0;
        while j < nn && h[off + j] == nd[j]
            invariant
                j <= nn,
                off + nn <= hn,
                hn == h@.len(),
                nn == nd@.len(),
                forall|m: int| 0 <= m < j ==> h@[off + m] == nd@[m],
            decreases nn - j,
        {
            j = j + 1;
        }
        if j == nn {
            proof {
                assert(hay@.subrange(off as int, off as int + nd@.len() as int) =~= needle@);
                assert(sub_at(hay@, needle@, off as int));
            }
            return true;
        }
        proof {
            assert(hay@.subrange(off as int, off as int + nd@.len() as int)[j as int]
                == h@[off + j]);
            assert(hay@.subrange(off as int, off as int + nd@.len() as int) != needle@);
            assert(!sub_at(hay@, needle@, off as int));
        }
        off = off + 1;
    }
    proof {
        assert(!spec_contains_sub(hay@, needle@)) by {
            assert forall|o: int| !#[trigger] sub_at(hay@, needle@, o) by {
                if 0 <= o && o + needle@.len() <= hay@.len() {
                    assert(o < off);
                }
            }
        }
    }
    false
}

/// Whether a dpkg status line marks an installed package.
pub open spec fn line_marks_installed(l: Seq<char>) -> bool {
    l.len() >= 2 && l[0] == 'i' && l[1] == 'i'
}

/// Whether this line starts with dpkg's installed marker.
fn line_starts_ii(line: &String) -> (r: bool)
    ensures
        r == line_marks_installed(line@),
{
    let s = line.as_str();
    let n: usize = s.unicode_len();
    n >= 2 && s.get_char(0) == 'i' && s.get_char(1) == 'i'
}

/// What a manager's query output means: most managers answer with their
/// exit status; dpkg lists an `ii` status line for an installed package;
/// scoop matches by exact name in the first column of a listing line
/// after the header; the rest mention the package name somewhere in the
/// output.
pub open spec fn spec_query_installed(
    m: PackageManager,
    success: bool,
    out: Seq<char>,
    pkg: Seq<char>,
) -> bool {
    match m {
        PackageManager::Pacman | PackageManager::Yay | PackageManager::Paru | PackageManager::Dnf
            | PackageManager::Zypper | PackageManager::Flatpak | PackageManager::Npm => success,
        PackageManager::Apt => success && exists|j: int|
            0 <= j < spec_lines(out).len() && line_marks_installed(#[trigger] spec_lines(out)[j]),
        PackageManager::Scoop => pkg.len() > 0 && exists|j: int|
            1 <= j < spec_lines(out).len() && first_token(#[trigger] spec_lines(out)[j]) == pkg,
        PackageManager::Winget | PackageManager::Choco | PackageManager::Brew
            | PackageManager::Cargo => spec_contains_sub(out, pkg),
    }
}

/// Reads a query's outcome — exit status and standard output — as the
/// answer to "is `pkg` installed?", per `spec_query_installed`.
pub fn installed_from_query(
    manager: &PackageManager,
    success: bool,
    stdout: &String,
    pkg: &String,
) -> (r: bool)
    ensures
        r == spec_query_installed(*manager, success, stdout@, pkg@),
{
    match manager {
        PackageManager::Pacman | PackageManager::Yay | PackageManager::Paru | PackageManager::Dnf
            | PackageManager::Zypper | PackageManager::Flatpak | PackageManager::Npm => success,
        PackageManager::Apt => {
            if !success {
                return false;
            }
            let lines = split_lines(stdout);
            let mut j: usize = 0;
            while j < lines.len()
                invariant
                    j <= lines@.len(),
                    *manager is Apt,
                    success,
                    lines.deep_view() == spec_lines(stdout@),
                    forall|m: int|
                        0 <= m < j ==> !line_marks_installed(#[trigger] lines.deep_view()[m]),
                decreases lines@.len() - j,
            {
                assert(lines.deep_view()[j as int] == lines@[j as int]@);
                if line_starts_ii(&lines[j]) {
                    assert(line_marks_installed(spec_lines(stdout@)[j as int]));
                    return true;
                }
                j = j + 1;
            }
            false
        },
        PackageManager::Scoop => {
            if pkg.as_str().is_empty() {
                return false;
            }
            let lines = split_lines(stdout);
            let mut j: usize = 1;
            while j < lines.len()
                invariant
                    1 <= j,
                    *manager is Scoop,
                    lines.deep_view() == spec_lines(stdout@),
                    pkg@.len() > 0,
                    forall|m: int|
                        1 <= m < j ==> first_token(#[trigger] lines.deep_view()[m]) != pkg@,
                decreases lines@.len() - j,
            {
                assert(lines.deep_view()[j as int] == lines@[j as int]@);
                let tok = first_token_string(&lines[j]);
                if tok == *pkg {
                    assert(first_token(spec_lines(stdout@)[j as int]) == pkg@);
                    return true;
                }
                j = j + 1;
            }
            false
        },
        PackageManager::Winget | PackageManager::Choco | PackageManager::Brew
            | PackageManager::Cargo => contains_substring(stdout, pkg),
    }
}

} // verus!
