//! Glob patterns for key listing: a pattern with `*` as its only wildcard is
//! translated into an anchored regular expression and handed to the regex
//! engine, whose answers are named but not re-implemented here.

use vstd::prelude::*;
use vstd::string::StrSliceExecFns;
use crate::text::push_char;

verus! {

/// Whether the regex engine accepts a pattern; depends on the pattern text
/// alone.
pub uninterp spec fn regex_compiles(pattern: Seq<char>) -> bool;

/// Whether a compiled pattern matches a text somewhere inside it; depends on
/// the pattern and the text alone.
pub uninterp spec fn regex_matches(pattern: Seq<char>, text: Seq<char>) -> bool;

/// Relies on `regex::Regex::new`: compilation succeeds or fails as a function
/// of the pattern text alone.
#[verifier::external_body]
pub(crate) fn regex_compile_ok(pattern: &str) -> (r: bool)
    ensures
        r == regex_compiles(pattern@),
{
    regex::Regex::new(pattern).is_ok()
}

/// Relies on `regex::Regex::is_match` on a pattern freshly built by
/// `regex::Regex::new`: the answer is a function of the pattern and the text.
#[verifier::external_body]
pub(crate) fn regex_full_match(pattern: &str, text: &str) -> (r: bool)
    requires
        regex_compiles(pattern@),
    ensures
        r == regex_matches(pattern@, text@),
{
    match regex::Regex::new(pattern) {
        Ok(re) => re.is_match(text),
        Err(_) => false,
    }
}

/// The body of the regular expression a glob translates to: `*` becomes
/// `.*`, every other character stands for itself.
pub open spec fn glob_translate(p: Seq<char>) -> Seq<char>
    decreases p.len(),
{
    if p.len() == 0 {
        Seq::empty()
    } else {
        (if p[0] == '*' {
            seq!['.', '*']
        } else {
            seq![p[0]]
        }) + glob_translate(p.drop_first())
    }
}

/// The anchored regular expression a glob translates to.
pub open spec fn glob_regex(p: Seq<char>) -> Seq<char> {
    seq!['^'] + glob_translate(p) + seq!['$']
}

/// Whether the translated pattern is accepted by the regex engine.
pub open spec fn glob_ok(p: Seq<char>) -> bool {
    regex_compiles(glob_regex(p))
}

/// Whether a key is matched by a glob pattern.
pub open spec fn glob_selects(p: Seq<char>, k: Seq<char>) -> bool {
    regex_matches(glob_regex(p), k)
}

proof fn lemma_glob_translate_push(p: Seq<char>, c: char)
    ensures
        glob_translate(p.push(c)) == glob_translate(p) + (if c == '*' {
            seq!['.', '*']
        } else {
            seq![c]
        }),
    decreases p.len(),
{
    let t = (if c == '*' {
        seq!['.', '*']
    } else {
        seq![c]
    });
    if p.len() == 0 {
        assert(p.push(c)[0] == c);
        assert(p.push(c).drop_first() =~= Seq::<char>::empty());
        assert(glob_translate(p.push(c).drop_first()) == Seq::<char>::empty());
        assert(glob_translate(p.push(c)) == t + glob_translate(p.push(c).drop_first()));
        assert(glob_translate(p) == Seq::<char>::empty());
        assert(t + Seq::<char>::empty() =~= t);
        assert(Seq::<char>::empty() + t =~= t);
        assert(glob_translate(p.push(c)) =~= glob_translate(p) + t);
    } else {
        assert(p.push(c)[0] == p[0]);
        assert(p.push(c).drop_first() =~= p.drop_first().push(c));
        lemma_glob_translate_push(p.drop_first(), c);
        assert(glob_translate(p.drop_first().push(c)) == glob_translate(p.drop_first()) + t);
        let h = (if p[0] == '*' {
            seq!['.', '*']
        } else {
            seq![p[0]]
        });
        assert(glob_translate(p.push(c)) == h + glob_translate(p.drop_first().push(c)));
        assert(glob_translate(p) == h + glob_translate(p.drop_first()));
        assert(glob_translate(p.push(c)) =~= glob_translate(p) + t);
    }
}

/// Builds the anchored regular expression text for a glob pattern.
pub fn build_glob_regex(p: &str) -> (r: String)
    ensures
        r@ == glob_regex(p@),
{
    let n = p.unicode_len();
    let mut r = String::new();
    push_char(&mut r, '^');
    assert(r@ =~= seq!['^'] + glob_translate(p@.take(0)));
    let mut i: usize = 0;
    while i < n
        invariant
            n == p@.len(),
            i <= n,
            r@ == seq!['^'] + glob_translate(p@.take(i as int)),
        decreases n - i,
    {
        let c = p.get_char(i);
        if c == '*' {
            push_char(&mut r, '.');
            push_char(&mut r, '*');
        } else {
            push_char(&mut r, c);
        }
        proof {
            assert(p@.take(i + 1) =~= p@.take(i as int).push(p@[i as int]));
            lemma_glob_translate_push(p@.take(i as int), p@[i as int]);
            assert(r@ =~= seq!['^'] + glob_translate(p@.take(i + 1)));
        }
        i += 1;
    }
    push_char(&mut r, '$');
    proof {
        assert(p@.take(n as int) =~= p@);
        assert(r@ =~= glob_regex(p@));
    }
    r
}

} // verus!
