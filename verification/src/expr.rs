//! Boolean selection expressions over named atoms.
//!
//! One AST serves two evaluators: OS-compatibility predicates (atoms name a
//! platform, a distribution id, or with a `%` prefix an "id-like" family) and
//! tag filters (atoms name step tags).  The grammar is
//! `expr := and ("||" and)*`, `and := not ("&&" not)*`, `not := "!"* atom`,
//! `atom := "(" expr ")" | word`, with OR binding loosest and NOT tightest.

use vstd::prelude::*;
use crate::error::Error;
use crate::osinfo::{OsInfo, OsInfoV, spec_platform_name};

verus! {

/// A selection expression, built once at parse time and never mutated.
#[derive(Debug)]
pub enum Expr {
    Var(String),
    Not(Box<Expr>),
    And(Box<Expr>, Box<Expr>),
    Or(Box<Expr>, Box<Expr>),
}

/// Mathematical image of an `Expr`: atom names as character sequences.
#[verifier::ext_equal]
pub enum ExprV {
    Var(Seq<char>),
    Not(Box<ExprV>),
    And(Box<ExprV>, Box<ExprV>),
    Or(Box<ExprV>, Box<ExprV>),
}

impl View for Expr {
    type V = ExprV;

    open spec fn view(&self) -> ExprV
        decreases self,
    {
        match self {
            Expr::Var(name) => ExprV::Var(name@),
            Expr::Not(inner) => ExprV::Not(Box::new((**inner)@)),
            Expr::And(left, right) => ExprV::And(Box::new((**left)@), Box::new((**right)@)),
            Expr::Or(left, right) => ExprV::Or(Box::new((**left)@), Box::new((**right)@)),
        }
    }
}

impl DeepView for Expr {
    type V = ExprV;

    open spec fn deep_view(&self) -> ExprV {
        self@
    }
}

impl Clone for Expr {
    /// An expression clone is indistinguishable from the original.
    fn clone(&self) -> (res: Self)
        ensures
            res == *self,
        decreases self,
    {
        match self {
            Expr::Var(name) => Expr::Var(name.clone()),
            Expr::Not(inner) => Expr::Not(Box::new((**inner).clone())),
            Expr::And(left, right) => Expr::And(
                Box::new((**left).clone()),
                Box::new((**right).clone()),
            ),
            Expr::Or(left, right) => Expr::Or(
                Box::new((**left).clone()),
                Box::new((**right).clone()),
            ),
        }
    }
}

/// ASCII lower-casing of one character; other characters pass through.
pub open spec fn ascii_lower(c: char) -> char {
    if 65 <= c as u32 <= 90 {
        ((c as u8) + 32) as char
    } else {
        c
    }
}

/// ASCII lower-casing of a whole name.
pub open spec fn lower_seq(s: Seq<char>) -> Seq<char> {
    s.map_values(|c: char| ascii_lower(c))
}

/// How an atom is judged against host facts: lower-cased, a `%` prefix asks
/// for membership in the id-like family, otherwise the atom must equal the
/// platform name or the distribution id.
pub open spec fn spec_os_atom(info: OsInfoV, name: Seq<char>) -> bool {
    let norm = lower_seq(name);
    if norm.len() > 0 && norm[0] == '%' {
        info.id_like.contains(norm.subrange(1, norm.len() as int))
    } else {
        norm == spec_platform_name(info.platform) || info.id == Some(norm)
    }
}

/// The OS evaluator.
pub open spec fn spec_eval_os(e: ExprV, info: OsInfoV) -> bool
    decreases e,
{
    match e {
        ExprV::Var(name) => spec_os_atom(info, name),
        ExprV::Not(inner) => !spec_eval_os(*inner, info),
        ExprV::And(left, right) => spec_eval_os(*left, info) && spec_eval_os(*right, info),
        ExprV::Or(left, right) => spec_eval_os(*left, info) || spec_eval_os(*right, info),
    }
}

/// The tag evaluator: an atom holds iff it is one of the step's tags.
pub open spec fn spec_eval_tags(e: ExprV, tags: Seq<Seq<char>>) -> bool
    decreases e,
{
    match e {
        ExprV::Var(name) => tags.contains(name),
        ExprV::Not(inner) => !spec_eval_tags(*inner, tags),
        ExprV::And(left, right) => spec_eval_tags(*left, tags) && spec_eval_tags(*right, tags),
        ExprV::Or(left, right) => spec_eval_tags(*left, tags) || spec_eval_tags(*right, tags),
    }
}

/// The set of atom names an expression mentions.
pub open spec fn spec_vars(e: ExprV) -> Set<Seq<char>>
    decreases e,
{
    match e {
        ExprV::Var(name) => set![name],
        ExprV::Not(inner) => spec_vars(*inner),
        ExprV::And(left, right) => spec_vars(*left).union(spec_vars(*right)),
        ExprV::Or(left, right) => spec_vars(*left).union(spec_vars(*right)),
    }
}

/// Double negation changes nothing under the OS evaluator.
pub proof fn lemma_os_double_negation(e: ExprV, info: OsInfoV)
    ensures
        spec_eval_os(ExprV::Not(Box::new(ExprV::Not(Box::new(e)))), info) == spec_eval_os(e, info),
{
    let n1 = ExprV::Not(Box::new(e));
    assert(spec_eval_os(n1, info) == !spec_eval_os(e, info));
    assert(spec_eval_os(ExprV::Not(Box::new(n1)), info) == !spec_eval_os(n1, info));
}

/// Double negation changes nothing under the tag evaluator.
pub proof fn lemma_tags_double_negation(e: ExprV, tags: Seq<Seq<char>>)
    ensures
        spec_eval_tags(ExprV::Not(Box::new(ExprV::Not(Box::new(e)))), tags) == spec_eval_tags(
            e,
            tags,
        ),
{
    let n1 = ExprV::Not(Box::new(e));
    assert(spec_eval_tags(n1, tags) == !spec_eval_tags(e, tags));
    assert(spec_eval_tags(ExprV::Not(Box::new(n1)), tags) == !spec_eval_tags(n1, tags));
}

/// De Morgan's equivalences under the OS evaluator: negating a conjunction
/// is disjoining the negations, and dually.
pub proof fn lemma_os_de_morgan(a: ExprV, b: ExprV, info: OsInfoV)
    ensures
        spec_eval_os(ExprV::Not(Box::new(ExprV::And(Box::new(a), Box::new(b)))), info)
            == spec_eval_os(
            ExprV::Or(Box::new(ExprV::Not(Box::new(a))), Box::new(ExprV::Not(Box::new(b)))),
            info,
        ),
        spec_eval_os(ExprV::Not(Box::new(ExprV::Or(Box::new(a), Box::new(b)))), info)
            == spec_eval_os(
            ExprV::And(Box::new(ExprV::Not(Box::new(a))), Box::new(ExprV::Not(Box::new(b)))),
            info,
        ),
{
    let na = ExprV::Not(Box::new(a));
    let nb = ExprV::Not(Box::new(b));
    let conj = ExprV::And(Box::new(a), Box::new(b));
    let disj = ExprV::Or(Box::new(a), Box::new(b));
    assert(spec_eval_os(conj, info) == (spec_eval_os(a, info) && spec_eval_os(b, info)));
    assert(spec_eval_os(disj, info) == (spec_eval_os(a, info) || spec_eval_os(b, info)));
    assert(spec_eval_os(ExprV::Not(Box::new(conj)), info) == !spec_eval_os(conj, info));
    assert(spec_eval_os(ExprV::Not(Box::new(disj)), info) == !spec_eval_os(disj, info));
    assert(spec_eval_os(na, info) == !spec_eval_os(a, info));
    assert(spec_eval_os(nb, info) == !spec_eval_os(b, info));
    assert(spec_eval_os(ExprV::Or(Box::new(na), Box::new(nb)), info) == (spec_eval_os(na, info)
        || spec_eval_os(nb, info)));
    assert(spec_eval_os(ExprV::And(Box::new(na), Box::new(nb)), info) == (spec_eval_os(na, info)
        && spec_eval_os(nb, info)));
}

/// De Morgan's equivalences under the tag evaluator.
pub proof fn lemma_tags_de_morgan(a: ExprV, b: ExprV, tags: Seq<Seq<char>>)
    ensures
        spec_eval_tags(ExprV::Not(Box::new(ExprV::And(Box::new(a), Box::new(b)))), tags)
            == spec_eval_tags(
            ExprV::Or(Box::new(ExprV::Not(Box::new(a))), Box::new(ExprV::Not(Box::new(b)))),
            tags,
        ),
        spec_eval_tags(ExprV::Not(Box::new(ExprV::Or(Box::new(a), Box::new(b)))), tags)
            == spec_eval_tags(
            ExprV::And(Box::new(ExprV::Not(Box::new(a))), Box::new(ExprV::Not(Box::new(b)))),
            tags,
        ),
{
    let na = ExprV::Not(Box::new(a));
    let nb = ExprV::Not(Box::new(b));
    let conj = ExprV::And(Box::new(a), Box::new(b));
    let disj = ExprV::Or(Box::new(a), Box::new(b));
    assert(spec_eval_tags(conj, tags) == (spec_eval_tags(a, tags) && spec_eval_tags(b, tags)));
    assert(spec_eval_tags(disj, tags) == (spec_eval_tags(a, tags) || spec_eval_tags(b, tags)));
    assert(spec_eval_tags(ExprV::Not(Box::new(conj)), tags) == !spec_eval_tags(conj, tags));
    assert(spec_eval_tags(ExprV::Not(Box::new(disj)), tags) == !spec_eval_tags(disj, tags));
    assert(spec_eval_tags(na, tags) == !spec_eval_tags(a, tags));
    assert(spec_eval_tags(nb, tags) == !spec_eval_tags(b, tags));
    assert(spec_eval_tags(ExprV::Or(Box::new(na), Box::new(nb)), tags) == (spec_eval_tags(na, tags)
        || spec_eval_tags(nb, tags)));
    assert(spec_eval_tags(ExprV::And(Box::new(na), Box::new(nb)), tags) == (spec_eval_tags(
        na,
        tags,
    ) && spec_eval_tags(nb, tags)));
}

/// Linear search for a string among owned strings.
pub fn contains_string(v: &Vec<String>, s: &String) -> (r: bool)
    ensures
        r == v.deep_view().contains(s@),
{
    let mut i: usize = 0;
    while i < v.len()
        invariant
            i <= v.len(),
            forall|k: int| 0 <= k < i ==> v.deep_view()[k] != s@,
        decreases v.len() - i,
    {
        assert(v.deep_view()[i as int] == v@[i as int]@);
        if v[i] == *s {
            assert(v.deep_view().contains(s@)) by {
                assert(v.deep_view()[i as int] == s@);
            }
            return true;
        }
        i = i + 1;
    }
    assert(!v.deep_view().contains(s@)) by {
        assert(forall|k: int| 0 <= k < v.deep_view().len() ==> v.deep_view()[k] != s@);
    }
    false
}

/// Lower-cases one character, ASCII letters only.
fn lower_char(c: char) -> (r: char)
    ensures
        r == ascii_lower(c),
{
    let code: u32 = c as u32;
    if 65 <= code && code <= 90 {
        ((c as u8) + 32) as char
    } else {
        c
    }
}

/// The characters of a string, one by one.
pub fn str_chars(s: &str) -> (v: Vec<char>)
    ensures
        v@ == s@,
{
    let n: usize = s.unicode_len();
    let mut v: Vec<char> = Vec::new();
    let mut i: usize = 0;
    while i < n
        invariant
            i <= n,
            n == s@.len(),
            v@ == s@.take(i as int),
        decreases n - i,
    {
        let c = s.get_char(i);
        v.push(c);
        assert(v@ =~= s@.take(i as int + 1));
        i = i + 1;
    }
    assert(v@ =~= s@);
    v
}

/// ASCII lower-casing of a whole string.
pub fn lower_string(s: &String) -> (r: String)
    ensures
        r@ == lower_seq(s@),
{
    let chars = str_chars(s.as_str());
    let mut out: String = String::new();
    let mut i: usize = 0;
    while i < chars.len()
        invariant
            i <= chars.len(),
            chars@ == s@,
            out@ == lower_seq(s@).take(i as int),
        decreases chars.len() - i,
    {
        let c = lower_char(chars[i]);
        push_char(&mut out, c);
        assert(out@ =~= lower_seq(s@).take(i as int + 1));
        i = i + 1;
    }
    assert(out@ =~= lower_seq(s@));
    out
}

/// Relies on `String::push`: appends exactly one character at the end.
#[verifier::external_body]
pub(crate) fn push_char(s: &mut String, c: char)
    ensures
        final(s)@ == old(s)@.push(c),
{
    s.push(c);
}

/// Builds a string out of a character range.
pub(crate) fn chars_to_string(v: &Vec<char>, from: usize, to: usize) -> (r: String)
    requires
        from <= to <= v@.len(),
    ensures
        r@ == v@.subrange(from as int, to as int),
{
    let mut out: String = String::new();
    let mut i: usize = from;
    while i < to
        invariant
            from <= i <= to <= v@.len(),
            out@ == v@.subrange(from as int, i as int),
        decreases to - i,
    {
        push_char(&mut out, v[i]);
        assert(out@ =~= v@.subrange(from as int, i as int + 1));
        i = i + 1;
    }
    out
}

/// Judges one atom against host facts; see `spec_os_atom`.
fn os_atom_holds(name: &String, info: &OsInfo) -> (r: bool)
    ensures
        r == spec_os_atom(info@, name@),
{
    let norm = lower_string(name);
    let n: usize = norm.as_str().unicode_len();
    if n > 0 && norm.as_str().get_char(0) == '%' {
        let rest_str = norm.as_str().substring_char(1, n);
        let rest = rest_str.to_owned();
        assert(rest@ =~= lower_seq(name@).subrange(1, lower_seq(name@).len() as int));
        contains_string(&info.id_like, &rest)
    } else {
        let pn = info.platform.as_str().to_owned();
        if norm == pn {
            true
        } else {
            match &info.id {
                Some(id) => *id == norm,
                None => false,
            }
        }
    }
}

/// Evaluates an expression against host facts, per `spec_eval_os`.
pub fn eval_os_expr(expr: &Expr, os_info: &OsInfo) -> (r: bool)
    ensures
        r == spec_eval_os(expr@, os_info@),
    decreases expr,
{
    match expr {
        Expr::Var(name) => os_atom_holds(name, os_info),
        Expr::Not(inner) => !eval_os_expr(inner, os_info),
        Expr::And(left, right) => eval_os_expr(left, os_info) && eval_os_expr(right, os_info),
        Expr::Or(left, right) => eval_os_expr(left, os_info) || eval_os_expr(right, os_info),
    }
}

/// Evaluates an expression against a step's tags, per `spec_eval_tags`.
pub fn eval_tags_expr(expr: &Expr, tags: &Vec<String>) -> (r: bool)
    ensures
        r == spec_eval_tags(expr@, tags.deep_view()),
    decreases expr,
{
    match expr {
        Expr::Var(name) => contains_string(tags, name),
        Expr::Not(inner) => !eval_tags_expr(inner, tags),
        Expr::And(left, right) => eval_tags_expr(left, tags) && eval_tags_expr(right, tags),
        Expr::Or(left, right) => eval_tags_expr(left, tags) || eval_tags_expr(right, tags),
    }
}

/// No two positions hold the same character sequence.
pub open spec fn no_dup_seqs(v: Seq<Seq<char>>) -> bool {
    forall|i: int, j: int| 0 <= i < j < v.len() ==> v[i] != v[j]
}

impl Expr {
    /// Every atom name the expression mentions, without duplicates.
    pub fn vars(&self) -> (r: Vec<String>)
        ensures
            forall|n: Seq<char>| r.deep_view().contains(n) == spec_vars(self@).contains(n),
            no_dup_seqs(r.deep_view()),
    {
        let mut result: Vec<String> = Vec::new();
        self.collect_vars(&mut result);
        result
    }

    /// Pushes every atom name not yet present onto `set`.
    fn collect_vars(&self, set: &mut Vec<String>)
        ensures
            forall|n: Seq<char>|
                final(set).deep_view().contains(n) == (old(set).deep_view().contains(n)
                    || spec_vars(self@).contains(n)),
            no_dup_seqs(old(set).deep_view()) ==> no_dup_seqs(final(set).deep_view()),
        decreases self,
    {
        match self {
            Expr::Var(name) => {
                if !contains_string(set, name) {
                    let ghost pre = set.deep_view();
                    set.push(name.clone());
                    proof {
                        assert(set.deep_view() =~= pre.push(name@));
                        assert forall|n: Seq<char>|
                            set.deep_view().contains(n) == (pre.contains(n) || n == name@) by {
                            crate::seqs::lemma_push_contains(pre, name@, n);
                        }
                        if no_dup_seqs(pre) {
                            assert(forall|k: int| 0 <= k < pre.len() ==> pre[k] != name@);
                            assert(no_dup_seqs(set.deep_view()));
                        }
                    }
                }
            },
            Expr::Not(inner) => {
                (**inner).collect_vars(set);
            },
            Expr::And(left, right) => {
                (**left).collect_vars(set);
                (**right).collect_vars(set);
            },
            Expr::Or(left, right) => {
                (**left).collect_vars(set);
                (**right).collect_vars(set);
            },
        }
    }
}

/// One lexical token of the expression grammar.
#[derive(Debug)]
pub enum Token {
    LPar,
    RPar,
    AndOp,
    OrOp,
    Bang,
    Word(String),
}

/// Mathematical image of a `Token`.
#[verifier::ext_equal]
pub enum TokenV {
    LPar,
    RPar,
    AndOp,
    OrOp,
    Bang,
    Word(Seq<char>),
}

impl View for Token {
    type V = TokenV;

    open spec fn view(&self) -> TokenV {
        match self {
            Token::LPar => TokenV::LPar,
            Token::RPar => TokenV::RPar,
            Token::AndOp => TokenV::AndOp,
            Token::OrOp => TokenV::OrOp,
            Token::Bang => TokenV::Bang,
            Token::Word(w) => TokenV::Word(w@),
        }
    }
}

impl DeepView for Token {
    type V = TokenV;

    open spec fn deep_view(&self) -> TokenV {
        self@
    }
}

/// Whitespace between tokens.
pub open spec fn is_space(c: char) -> bool {
    c == ' ' || c == '\t' || c == '\n' || c == '\r'
}

/// A character that may stand inside an atom name.
pub open spec fn is_word_char(c: char) -> bool {
    (97 <= c as u32 <= 122) || (65 <= c as u32 <= 90) || (48 <= c as u32 <= 57) || c == '_' || c
        == '-' || c == '.' || c == '%'
}

/// The length of the maximal word prefix of `s`.
pub open spec fn word_len(s: Seq<char>) -> nat
    decreases s.len(),
{
    if s.len() > 0 && is_word_char(s[0]) {
        (1 + word_len(s.drop_first())) as nat
    } else {
        0
    }
}

/// The word prefix never runs past the end.
proof fn lemma_word_len_le(s: Seq<char>)
    ensures
        word_len(s) <= s.len(),
    decreases s.len(),
{
    if s.len() > 0 && is_word_char(s[0]) {
        lemma_word_len_le(s.drop_first());
    }
}

/// Lexing: `None` on a character that belongs to no token.
pub open spec fn spec_tokenize(s: Seq<char>) -> Option<Seq<TokenV>>
    decreases s.len(),
    via spec_tokenize_dec
{
    if s.len() == 0 {
        Some(Seq::empty())
    } else if is_space(s[0]) {
        spec_tokenize(s.drop_first())
    } else if s[0] == '(' {
        match spec_tokenize(s.drop_first()) {
            Some(ts) => Some(seq![TokenV::LPar] + ts),
            None => None,
        }
    } else if s[0] == ')' {
        match spec_tokenize(s.drop_first()) {
            Some(ts) => Some(seq![TokenV::RPar] + ts),
            None => None,
        }
    } else if s[0] == '!' {
        match spec_tokenize(s.drop_first()) {
            Some(ts) => Some(seq![TokenV::Bang] + ts),
            None => None,
        }
    } else if s[0] == '&' {
        if s.len() >= 2 && s[1] == '&' {
            match spec_tokenize(s.skip(2)) {
                Some(ts) => Some(seq![TokenV::AndOp] + ts),
                None => None,
            }
        } else {
            None
        }
    } else if s[0] == '|' {
        if s.len() >= 2 && s[1] == '|' {
            match spec_tokenize(s.skip(2)) {
                Some(ts) => Some(seq![TokenV::OrOp] + ts),
                None => None,
            }
        } else {
            None
        }
    } else if is_word_char(s[0]) {
        let wl: int = 1 + word_len(s.drop_first()) as int;
        match spec_tokenize(s.skip(wl)) {
            Some(ts) => Some(seq![TokenV::Word(s.take(wl))] + ts),
            None => None,
        }
    } else {
        None
    }
}

/// Termination of the lexer: every step consumes at least one character
/// and the word step stays within the input.
#[via_fn]
proof fn spec_tokenize_dec(s: Seq<char>) {
    if s.len() > 0 {
        lemma_word_len_le(s.drop_first());
    }
}

/// A maximal word prefix of known extent pins `word_len` down.
proof fn lemma_word_len_prefix(s: Seq<char>, k: int)
    requires
        0 <= k <= s.len(),
        forall|m: int| 0 <= m < k ==> is_word_char(s[m]),
        k == s.len() || !is_word_char(s[k]),
    ensures
        word_len(s) == k,
    decreases k,
{
    if k == 0 {
    } else {
        assert(is_word_char(s[0]));
        lemma_word_len_prefix(s.drop_first(), k - 1);
    }
}

/// Prepends already-lexed tokens onto the outcome for the rest.
spec fn tok_prepend(ts: Seq<TokenV>, rest: Option<Seq<TokenV>>) -> Option<Seq<TokenV>> {
    match rest {
        Some(r) => Some(ts + r),
        None => None,
    }
}

/// Lexes the whole input, per `spec_tokenize`.
fn tokenize(chars: &Vec<char>) -> (r: Option<Vec<Token>>)
    ensures
        match r {
            Some(ts) => spec_tokenize(chars@) == Some(ts.deep_view()),
            None => spec_tokenize(chars@) is None,
        },
{
    let n: usize = chars.len();
    let mut out: Vec<Token> = Vec::new();
    let mut i: usize = 0;
    proof {
        assert(chars@.skip(0) =~= chars@);
        lemma_tok_prepend_empty(spec_tokenize(chars@));
    }
    while i < n
        invariant
            i <= n,
            n == chars@.len(),
            spec_tokenize(chars@) == tok_prepend(out.deep_view(), spec_tokenize(chars@.skip(i as int))),
        decreases n - i,
    {
        let ghost rem = chars@.skip(i as int);
        assert(rem[0] == chars@[i as int]);
        assert(rem.drop_first() =~= chars@.skip(i as int + 1));
        let c = chars[i];
        if c == ' ' || c == '\t' || c == '\n' || c == '\r' {
            i = i + 1;
        } else if c == '(' {
            push_token(&mut out, Token::LPar, Ghost(chars@), Ghost(i as int));
            i = i + 1;
        } else if c == ')' {
            push_token(&mut out, Token::RPar, Ghost(chars@), Ghost(i as int));
            i = i + 1;
        } else if c == '!' {
            push_token(&mut out, Token::Bang, Ghost(chars@), Ghost(i as int));
            i = i + 1;
        } else if c == '&' {
            if i + 1 < n && chars[i + 1] == '&' {
                assert(rem.skip(2) =~= chars@.skip(i as int + 2));
                push_token2(&mut out, Token::AndOp, Ghost(chars@), Ghost(i as int));
                i = i + 2;
            } else {
                assert(spec_tokenize(rem) is None);
                return None;
            }
        } else if c == '|' {
            if i + 1 < n && chars[i + 1] == '|' {
                assert(rem.skip(2) =~= chars@.skip(i as int + 2));
                push_token2(&mut out, Token::OrOp, Ghost(chars@), Ghost(i as int));
                i = i + 2;
            } else {
                assert(spec_tokenize(rem) is None);
                return None;
            }
        } else if word_char(c) {
            let mut j: usize = i + 1;
            while j < n && word_char(chars[j])
                invariant
                    i < j <= n,
                    n == chars@.len(),
                    forall|m: int| i <= m < j ==> is_word_char(chars@[m]),
                decreases n - j,
            {
                j = j + 1;
            }
            proof {
                assert(forall|m: int| 0 <= m < j - i ==> is_word_char(rem[m]));
                lemma_word_len_prefix(rem, j - i);
                assert(word_len(rem) == j - i);
                assert(1 + word_len(rem.drop_first()) == j - i);
                assert(rem.skip(j - i) =~= chars@.skip(j as int));
                assert(rem.take(j - i) =~= chars@.subrange(i as int, j as int));
            }
            let w = chars_to_string(chars, i, j);
            let ghost pre = out.deep_view();
            out.push(Token::Word(w));
            proof {
                assert(out.deep_view() =~= pre.push(TokenV::Word(chars@.subrange(
                    i as int,
                    j as int,
                ))));
                lemma_tok_prepend_step(
                    pre,
                    TokenV::Word(chars@.subrange(i as int, j as int)),
                    spec_tokenize(chars@.skip(j as int)),
                );
            }
            i = j;
        } else {
            assert(spec_tokenize(rem) is None);
            return None;
        }
    }
    assert(chars@.skip(n as int) =~= Seq::<char>::empty());
    assert(spec_tokenize(chars@.skip(n as int)) == Some(Seq::<TokenV>::empty()));
    assert(out.deep_view() + Seq::<TokenV>::empty() =~= out.deep_view());
    Some(out)
}

/// Whether `c` may stand inside an atom name.
fn word_char(c: char) -> (r: bool)
    ensures
        r == is_word_char(c),
{
    let code: u32 = c as u32;
    (97 <= code && code <= 122) || (65 <= code && code <= 90) || (48 <= code && code <= 57) || c
        == '_' || c == '-' || c == '.' || c == '%'
}

/// Prepending nothing changes nothing.
proof fn lemma_tok_prepend_empty(rest: Option<Seq<TokenV>>)
    ensures
        tok_prepend(Seq::empty(), rest) == rest,
{
    match rest {
        Some(r) => {
            assert(Seq::<TokenV>::empty() + r =~= r);
        },
        None => {},
    }
}

/// Appending one freshly lexed token keeps the prepend relation.
proof fn lemma_tok_prepend_step(done: Seq<TokenV>, t: TokenV, rest: Option<Seq<TokenV>>)
    ensures
        tok_prepend(done.push(t), rest) == tok_prepend(done, tok_prepend(seq![t], rest)),
{
    match rest {
        Some(r) => {
            assert(done.push(t) + r =~= done + (seq![t] + r));
        },
        None => {},
    }
}

/// Pushes a single-character token, keeping the tokenizing invariant.
fn push_token(out: &mut Vec<Token>, t: Token, Ghost(s): Ghost<Seq<char>>, Ghost(i): Ghost<int>)
    requires
        0 <= i < s.len(),
        spec_tokenize(s.skip(i)) == tok_prepend(seq![t@], spec_tokenize(s.skip(i + 1))),
        spec_tokenize(s) == tok_prepend(old(out).deep_view(), spec_tokenize(s.skip(i))),
    ensures
        spec_tokenize(s) == tok_prepend(final(out).deep_view(), spec_tokenize(s.skip(i + 1))),
{
    let ghost pre = out.deep_view();
    out.push(t);
    proof {
        assert(out.deep_view() =~= pre.push(t@));
        lemma_tok_prepend_step(pre, t@, spec_tokenize(s.skip(i + 1)));
    }
}

/// Pushes a two-character operator token, keeping the invariant.
fn push_token2(out: &mut Vec<Token>, t: Token, Ghost(s): Ghost<Seq<char>>, Ghost(i): Ghost<int>)
    requires
        0 <= i && i + 2 <= s.len(),
        spec_tokenize(s.skip(i)) == tok_prepend(seq![t@], spec_tokenize(s.skip(i + 2))),
        spec_tokenize(s) == tok_prepend(old(out).deep_view(), spec_tokenize(s.skip(i))),
    ensures
        spec_tokenize(s) == tok_prepend(final(out).deep_view(), spec_tokenize(s.skip(i + 2))),
{
    let ghost pre = out.deep_view();
    out.push(t);
    proof {
        assert(out.deep_view() =~= pre.push(t@));
        lemma_tok_prepend_step(pre, t@, spec_tokenize(s.skip(i + 2)));
    }
}

/// Parses `atom := "(" expr ")" | word`.
pub open spec fn sp_atom(ts: Seq<TokenV>) -> Option<(ExprV, Seq<TokenV>)>
    decreases ts.len(), 0int,
{
    if ts.len() == 0 {
        None
    } else {
        match ts[0] {
            TokenV::Word(w) => Some((ExprV::Var(w), ts.drop_first())),
            TokenV::LPar => match sp_or(ts.drop_first()) {
                Some((e, rest)) => if rest.len() > 0 && rest[0] == TokenV::RPar {
                    Some((e, rest.drop_first()))
                } else {
                    None
                },
                None => None,
            },
            _ => None,
        }
    }
}

/// Parses `not := "!"* atom`; each `!` wraps the next atom or group.
pub open spec fn sp_not(ts: Seq<TokenV>) -> Option<(ExprV, Seq<TokenV>)>
    decreases ts.len(), 1int,
{
    if ts.len() > 0 && ts[0] == TokenV::Bang {
        match sp_not(ts.drop_first()) {
            Some((e, rest)) => Some((ExprV::Not(Box::new(e)), rest)),
            None => None,
        }
    } else {
        sp_atom(ts)
    }
}

/// Parses `and := not ("&&" not)*`, grouping to the right.
pub open spec fn sp_and(ts: Seq<TokenV>) -> Option<(ExprV, Seq<TokenV>)>
    decreases ts.len(), 2int,
{
    match sp_not(ts) {
        None => None,
        Some((e, rest)) => {
            if rest.len() < ts.len() && rest.len() > 0 && rest[0] == TokenV::AndOp {
                match sp_and(rest.drop_first()) {
                    Some((e2, rest2)) => Some((ExprV::And(Box::new(e), Box::new(e2)), rest2)),
                    None => None,
                }
            } else {
                Some((e, rest))
            }
        },
    }
}

/// Parses `expr := and ("||" and)*`, grouping to the right.
pub open spec fn sp_or(ts: Seq<TokenV>) -> Option<(ExprV, Seq<TokenV>)>
    decreases ts.len(), 3int,
{
    match sp_and(ts) {
        None => None,
        Some((e, rest)) => {
            if rest.len() < ts.len() && rest.len() > 0 && rest[0] == TokenV::OrOp {
                match sp_or(rest.drop_first()) {
                    Some((e2, rest2)) => Some((ExprV::Or(Box::new(e), Box::new(e2)), rest2)),
                    None => None,
                }
            } else {
                Some((e, rest))
            }
        },
    }
}

/// A token list parses iff the whole grammar consumes it.
pub open spec fn spec_parse_tokens(ts: Seq<TokenV>) -> Option<ExprV> {
    match sp_or(ts) {
        Some((e, rest)) => if rest.len() == 0 {
            Some(e)
        } else {
            None
        },
        None => None,
    }
}

/// A string parses iff it lexes and the token list parses.
pub open spec fn spec_parse(s: Seq<char>) -> Option<ExprV> {
    match spec_tokenize(s) {
        Some(ts) => spec_parse_tokens(ts),
        None => None,
    }
}

/// Parses one atom starting at `pos`, per `sp_atom`.
fn parse_atom(ts: &Vec<Token>, pos: usize) -> (r: Option<(Expr, usize)>)
    requires
        pos <= ts@.len(),
    ensures
        match r {
            Some(ep) => pos < ep.1 <= ts@.len() && sp_atom(ts.deep_view().skip(pos as int))
                == Some((ep.0@, ts.deep_view().skip(ep.1 as int))),
            None => sp_atom(ts.deep_view().skip(pos as int)) is None,
        },
    decreases ts@.len() - pos, 0int,
{
    let ghost tsv = ts.deep_view();
    let ghost rem = tsv.skip(pos as int);
    if pos >= ts.len() {
        return None;
    }
    assert(rem[0] == tsv[pos as int]);
    assert(rem.drop_first() =~= tsv.skip(pos as int + 1));
    match &ts[pos] {
        Token::Word(w) => Some((Expr::Var(w.clone()), pos + 1)),
        Token::LPar => {
            match parse_or(ts, pos + 1) {
                Some((e, p)) => {
                    if p < ts.len() {
                        assert(tsv.skip(p as int)[0] == tsv[p as int]);
                        assert(tsv.skip(p as int).drop_first() =~= tsv.skip(p as int + 1));
                        let close_par = matches!(&ts[p], Token::RPar);
                        if close_par {
                            Some((e, p + 1))
                        } else {
                            None
                        }
                    } else {
                        None
                    }
                },
                None => None,
            }
        },
        _ => None,
    }
}

/// Parses stacked negations, per `sp_not`.
fn parse_not(ts: &Vec<Token>, pos: usize) -> (r: Option<(Expr, usize)>)
    requires
        pos <= ts@.len(),
    ensures
        match r {
            Some(ep) => pos < ep.1 <= ts@.len() && sp_not(ts.deep_view().skip(pos as int))
                == Some((ep.0@, ts.deep_view().skip(ep.1 as int))),
            None => sp_not(ts.deep_view().skip(pos as int)) is None,
        },
    decreases ts@.len() - pos, 1int,
{
    let ghost tsv = ts.deep_view();
    let ghost rem = tsv.skip(pos as int);
    let mut bang = false;
    if pos < ts.len() {
        bang = matches!(&ts[pos], Token::Bang);
        assert(rem[0] == tsv[pos as int]);
    }
    if bang {
        assert(rem.drop_first() =~= tsv.skip(pos as int + 1));
        match parse_not(ts, pos + 1) {
            Some((e, p)) => Some((Expr::Not(Box::new(e)), p)),
            None => None,
        }
    } else {
        parse_atom(ts, pos)
    }
}

/// Parses a conjunction chain, per `sp_and`.
fn parse_and(ts: &Vec<Token>, pos: usize) -> (r: Option<(Expr, usize)>)
    requires
        pos <= ts@.len(),
    ensures
        match r {
            Some(ep) => pos < ep.1 <= ts@.len() && sp_and(ts.deep_view().skip(pos as int))
                == Some((ep.0@, ts.deep_view().skip(ep.1 as int))),
            None => sp_and(ts.deep_view().skip(pos as int)) is None,
        },
    decreases ts@.len() - pos, 2int,
{
    let ghost tsv = ts.deep_view();
    match parse_not(ts, pos) {
        None => None,
        Some((e, p)) => {
            let mut and_next = false;
            if p < ts.len() {
                and_next = matches!(&ts[p], Token::AndOp);
                assert(tsv.skip(p as int)[0] == tsv[p as int]);
            }
            if and_next {
                assert(tsv.skip(p as int).drop_first() =~= tsv.skip(p as int + 1));
                match parse_and(ts, p + 1) {
                    Some((e2, p2)) => Some((Expr::And(Box::new(e), Box::new(e2)), p2)),
                    None => None,
                }
            } else {
                Some((e, p))
            }
        },
    }
}

/// Parses a disjunction chain, per `sp_or`.
fn parse_or(ts: &Vec<Token>, pos: usize) -> (r: Option<(Expr, usize)>)
    requires
        pos <= ts@.len(),
    ensures
        match r {
            Some(ep) => pos < ep.1 <= ts@.len() && sp_or(ts.deep_view().skip(pos as int))
                == Some((ep.0@, ts.deep_view().skip(ep.1 as int))),
            None => sp_or(ts.deep_view().skip(pos as int)) is None,
        },
    decreases ts@.len() - pos, 3int,
{
    let ghost tsv = ts.deep_view();
    match parse_and(ts, pos) {
        None => None,
        Some((e, p)) => {
            let mut or_next = false;
            if p < ts.len() {
                or_next = matches!(&ts[p], Token::OrOp);
                assert(tsv.skip(p as int)[0] == tsv[p as int]);
            }
            if or_next {
                assert(tsv.skip(p as int).drop_first() =~= tsv.skip(p as int + 1));
                match parse_or(ts, p + 1) {
                    Some((e2, p2)) => Some((Expr::Or(Box::new(e), Box::new(e2)), p2)),
                    None => None,
                }
            } else {
                Some((e, p))
            }
        },
    }
}

/// Parses a selection expression.  Succeeds exactly on the strings the
/// grammar accepts; a rejected input is reported with the text kept.
pub fn parse(input: &str) -> (r: Result<Expr, Error>)
    ensures
        match r {
            Ok(e) => spec_parse(input@) == Some(e@),
            Err(err) => spec_parse(input@) is None && (err matches Error::ExprParse { input: orig }
                && orig@ == input@),
        },
{
    let chars = str_chars(input);
    match tokenize(&chars) {
        None => Err(Error::ExprParse { input: input.to_owned() }),
        Some(tokens) => {
            assert(tokens.deep_view().skip(0) =~= tokens.deep_view());
            match parse_or(&tokens, 0) {
                Some((e, p)) => {
                    if p == tokens.len() {
                        assert(tokens.deep_view().skip(p as int).len() == 0);
                        Ok(e)
                    } else {
                        assert(tokens.deep_view().skip(p as int).len() > 0);
                        Err(Error::ExprParse { input: input.to_owned() })
                    }
                },
                None => Err(Error::ExprParse { input: input.to_owned() }),
            }
        },
    }
}

} // verus!
