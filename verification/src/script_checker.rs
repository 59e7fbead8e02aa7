//! Script validation: syntax checks before a run, remembered by content.
//!
//! A validated script is remembered under a digest of its shell and code,
//! so the execution engine never re-validates a script that already passed
//! the pre-pass.  Invoking a shell's syntax-check mode is host work and
//! sits behind the `ScriptChecker` trait; the cache itself is verified.

use vstd::prelude::*;
use vstd::utf8::encode_utf8;
use crate::config::{Script, ScriptV, Shell, spec_shell_command};

verus! {

/// Validates scripts: `check_script` runs the owning shell's syntax-check
/// mode (skipping when the shell is absent and the caller allows it), and
/// `is_checked` answers whether a script already passed.
pub trait ScriptChecker {
    fn check_script(&mut self, script: &Script, skip_if_shell_unavailable: bool) -> Result<
        (),
        String,
    >;

    fn is_checked(&self, script: &Script) -> bool;
}

/// The digest blake3 assigns to these bytes, in lowercase hex.
pub uninterp spec fn blake3_hex_of(bytes: Seq<u8>) -> Seq<char>;

/// Relies on `blake3::hash` and `Hash::to_hex`: a 64-digit lowercase hex
/// digest that is a function of the input bytes alone.
#[verifier::external_body]
fn blake3_hex(bytes: &Vec<u8>) -> (r: String)
    ensures
        r@ == blake3_hex_of(bytes@),
        r@.len() == 64,
{
    blake3::hash(bytes.as_slice()).to_hex().as_str().to_string()
}

/// The digest a script is remembered under: its shell's command name and
/// its code, hashed together.
pub open spec fn script_digest(s: ScriptV) -> Seq<char> {
    blake3_hex_of(encode_utf8(spec_shell_command(s.shell)) + encode_utf8(s.code))
}

/// Computes a script's cache digest.
pub fn hash_script(script: &Script) -> (r: String)
    ensures
        r@ == script_digest(script@),
{
    let cmd = script.shell.get_command();
    let mut bytes = cmd.as_bytes_vec();
    let mut code_bytes = script.code.as_str().as_bytes_vec();
    bytes.append(&mut code_bytes);
    proof {
        assert(bytes@ =~= encode_utf8(spec_shell_command(script@.shell)) + encode_utf8(
            script@.code,
        ));
    }
    blake3_hex(&bytes)
}

/// Every occurrence of `needle` removed, leftmost first, non-overlapping;
/// an empty needle removes nothing.
pub open spec fn spec_remove_all(s: Seq<char>, needle: Seq<char>) -> Seq<char>
    decreases s.len(),
{
    if needle.len() == 0 || s.len() < needle.len() {
        s
    } else if s.take(needle.len() as int) == needle {
        spec_remove_all(s.skip(needle.len() as int), needle)
    } else {
        seq![s[0]] + spec_remove_all(s.drop_first(), needle)
    }
}

/// Removes every occurrence of `needle`, per `spec_remove_all`.
pub fn remove_all(text: &String, needle: &String) -> (r: String)
    ensures
        r@ == spec_remove_all(text@, needle@),
{
    let s = crate::expr::str_chars(text.as_str());
    let nd = crate::expr::str_chars(needle.as_str());
    let n: usize = s.len();
    let nl: usize = nd.len();
    let mut out: String = String::new();
    let mut i: usize = 0;
    proof {
        assert(s@.skip(0) =~= s@);
        assert(out@ + spec_remove_all(s@.skip(0), nd@) =~= spec_remove_all(s@, nd@));
    }
    while i < n
        invariant
            i <= n,
            n == s@.len(),
            nl == nd@.len(),
            s@ == text@,
            nd@ == needle@,
            spec_remove_all(text@, needle@) =~= out@ + spec_remove_all(s@.skip(i as int), nd@),
        decreases n - i,
    {
        let ghost rem = s@.skip(i as int);
        let mut matches_here = nl > 0 && nl <= n - i;
        if matches_here {
            let mut j: usize = 0;
            while j < nl && s[i + j] == nd[j]
                invariant
                    j <= nl,
                    i + nl <= n,
                    n == s@.len(),
                    nl == nd@.len(),
                    forall|m: int| 0 <= m < j ==> s@[i + m] == nd@[m],
                decreases nl - j,
            {
                j = j + 1;
            }
            if j < nl {
                matches_here = false;
                proof {
                    assert(rem.take(nl as int)[j as int] == s@[i + j]);
                    assert(rem.take(nl as int) != nd@);
                }
            } else {
                proof {
                    assert(rem.take(nl as int) =~= nd@);
                }
            }
        }
        if matches_here {
            proof {
                assert(rem.skip(nl as int) =~= s@.skip(i as int + nl as int));
                assert(spec_remove_all(rem, nd@) == spec_remove_all(
                    s@.skip(i as int + nl as int),
                    nd@,
                ));
            }
            i = i + nl;
        } else {
            proof {
                if nl > 0 && i + nl <= n {
                    assert(spec_remove_all(rem, nd@) =~= seq![rem[0]] + spec_remove_all(
                        rem.drop_first(),
                        nd@,
                    ));
                }
            }
            let c = s[i];
            crate::expr::push_char(&mut out, c);
            proof {
                assert(rem[0] == s@[i as int]);
                assert(rem.drop_first() =~= s@.skip(i as int + 1));
                if nl == 0 || i + nl > n {
                    // the tail is shorter than the needle: it stays verbatim
                    assert(spec_remove_all(rem, nd@) == rem);
                    assert(spec_remove_all(s@.skip(i as int + 1), nd@) == s@.skip(i as int + 1));
                    assert(rem =~= seq![rem[0]] + s@.skip(i as int + 1));
                }
                assert(out@ + spec_remove_all(s@.skip(i as int + 1), nd@) =~= spec_remove_all(
                    text@,
                    needle@,
                ));
            }
            i = i + 1;
        }
    }
    proof {
        assert(s@.skip(n as int) =~= Seq::<char>::empty());
        assert(spec_remove_all(Seq::<char>::empty(), nd@) =~= Seq::<char>::empty());
        assert(out@ + Seq::<char>::empty() =~= out@);
    }
    out
}

/// Whitespace as trimming sees it.
pub open spec fn is_trim_space(c: char) -> bool {
    c == ' ' || c == '\t' || c == '\n' || c == '\r'
}

/// The length of the leading whitespace.
pub open spec fn lead_ws(s: Seq<char>) -> nat
    decreases s.len(),
{
    if s.len() > 0 && is_trim_space(s[0]) {
        (1 + lead_ws(s.drop_first())) as nat
    } else {
        0
    }
}

/// The length of the trailing whitespace.
pub open spec fn trail_ws(s: Seq<char>) -> nat
    decreases s.len(),
{
    if s.len() > 0 && is_trim_space(s.last()) {
        (1 + trail_ws(s.drop_last())) as nat
    } else {
        0
    }
}

/// The text with leading and trailing whitespace removed.
pub open spec fn spec_trim(s: Seq<char>) -> Seq<char> {
    let rest = s.skip(lead_ws(s) as int);
    rest.take(rest.len() - trail_ws(rest))
}

/// A whitespace prefix of known extent pins `lead_ws` down.
proof fn lemma_lead_ws_prefix(s: Seq<char>, k: int)
    requires
        0 <= k <= s.len(),
        forall|m: int| 0 <= m < k ==> is_trim_space(s[m]),
        k == s.len() || !is_trim_space(s[k]),
    ensures
        lead_ws(s) == k,
    decreases k,
{
    if k > 0 {
        lemma_lead_ws_prefix(s.drop_first(), k - 1);
    }
}

/// A whitespace suffix of known extent pins `trail_ws` down.
proof fn lemma_trail_ws_suffix(s: Seq<char>, k: int)
    requires
        0 <= k <= s.len(),
        forall|m: int| s.len() - k <= m < s.len() ==> is_trim_space(s[m]),
        k == s.len() || !is_trim_space(s[s.len() - k - 1]),
    ensures
        trail_ws(s) == k,
    decreases k,
{
    if k > 0 {
        lemma_trail_ws_suffix(s.drop_last(), k - 1);
    }
}

/// Trims whitespace at both ends, per `spec_trim`.
pub fn trim_ascii(text: &String) -> (r: String)
    ensures
        r@ == spec_trim(text@),
{
    let chars = crate::expr::str_chars(text.as_str());
    let n: usize = chars.len();
    let mut a: usize = 0;
    while a < n && trim_space_char(chars[a])
        invariant
            a <= n,
            n == chars@.len(),
            chars@ == text@,
            forall|m: int| 0 <= m < a ==> is_trim_space(chars@[m]),
        decreases n - a,
    {
        a = a + 1;
    }
    proof {
        lemma_lead_ws_prefix(chars@, a as int);
    }
    let mut b: usize = n;
    while b > a && trim_space_char(chars[b - 1])
        invariant
            a <= b <= n,
            n == chars@.len(),
            chars@ == text@,
            a as int == lead_ws(chars@),
            a == n || !is_trim_space(chars@[a as int]),
            forall|m: int| b <= m < n ==> is_trim_space(chars@[m]),
        decreases b,
    {
        b = b - 1;
    }
    proof {
        let rest = chars@.skip(a as int);
        assert(forall|m: int|
            rest.len() - (n - b) <= m < rest.len() ==> is_trim_space(rest[m]));
        if b > a {
            assert(!is_trim_space(rest[b - a - 1]));
        }
        lemma_trail_ws_suffix(rest, n - b);
        assert(rest.take(rest.len() - trail_ws(rest)) =~= chars@.subrange(a as int, b as int));
    }
    crate::expr::chars_to_string(&chars, a, b)
}

/// Whether `c` is trimmed; see `is_trim_space`.
fn trim_space_char(c: char) -> (r: bool)
    ensures
        r == is_trim_space(c),
{
    c == ' ' || c == '\t' || c == '\n' || c == '\r'
}

/// The message a failed syntax check reports: the shell's name, then the
/// shell's complaint with every mention of the scratch file removed and
/// the ends trimmed.
pub open spec fn spec_check_message(shell: Shell, stderr: Seq<char>, scratch_path: Seq<char>) -> Seq<
    char,
> {
    spec_shell_command(shell) + " syntax error: "@ + spec_trim(
        spec_remove_all(stderr, scratch_path.push(':')),
    )
}

/// Reads a syntax check's outcome: exit success passes the script, and a
/// failure becomes the report `spec_check_message` states, with the
/// scratch file's path stripped for readability.
pub fn syntax_check_verdict(
    success: bool,
    shell: &Shell,
    stderr: &String,
    scratch_path: &String,
) -> (r: Result<(), String>)
    ensures
        r is Ok <==> success,
        r matches Err(m) ==> m@ == spec_check_message(*shell, stderr@, scratch_path@),
{
    if success {
        return Ok(());
    }
    let mut needle = scratch_path.clone();
    crate::expr::push_char(&mut needle, ':');
    let filtered = remove_all(stderr, &needle);
    let trimmed = trim_ascii(&filtered);
    let mut msg = shell.get_command().to_owned();
    msg.append(" syntax error: ");
    msg.append(trimmed.as_str());
    proof {
        assert(msg@ =~= spec_check_message(*shell, stderr@, scratch_path@));
    }
    Err(msg)
}

/// The verified validation cache: the digests of every script that passed
/// a syntax check so far.
pub struct DefaultScriptChecker {
    checked: Vec<String>,
}

impl View for DefaultScriptChecker {
    type V = Seq<Seq<char>>;

    closed spec fn view(&self) -> Seq<Seq<char>> {
        self.checked.deep_view()
    }
}

impl DefaultScriptChecker {
    /// An empty cache: nothing has been validated yet.
    pub fn new() -> (r: Self)
        ensures
            r@ == Seq::<Seq<char>>::empty(),
    {
        DefaultScriptChecker { checked: Vec::new() }
    }

    /// Whether this script already passed validation.
    pub fn is_checked(&self, script: &Script) -> (r: bool)
        ensures
            r == self@.contains(script_digest(script@)),
    {
        let digest = hash_script(script);
        crate::expr::contains_string(&self.checked, &digest)
    }

    /// Remembers that this script passed validation.
    pub fn mark_checked(&mut self, script: &Script)
        ensures
            forall|x: Seq<char>|
                final(self)@.contains(x) == (old(self)@.contains(x) || x == script_digest(
                    script@,
                )),
    {
        let digest = hash_script(script);
        if !crate::expr::contains_string(&self.checked, &digest) {
            let ghost pre = self.checked.deep_view();
            self.checked.push(digest);
            proof {
                assert(self.checked.deep_view() =~= pre.push(script_digest(script@)));
                assert forall|x: Seq<char>|
                    self.checked.deep_view().contains(x) == (pre.contains(x) || x == script_digest(
                        script@,
                    )) by {
                    crate::seqs::lemma_push_contains(pre, script_digest(script@), x);
                }
            }
        }
    }
}

impl Default for DefaultScriptChecker {
    /// Same as `new`: an empty cache.
    fn default() -> (r: Self)
        ensures
            r@ == Seq::<Seq<char>>::empty(),
    {
        DefaultScriptChecker::new()
    }
}

} // verus!
