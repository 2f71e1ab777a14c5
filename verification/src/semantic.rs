//! The semantic index: the tokens of a text and the bytes that stand for them.
use vstd::prelude::*;
use vstd::string::*;

use crate::fspath;
use crate::text;
use crate::text::{text_of, to_chars};

verus! {

/// A letter or a number, of any script.
pub uninterp spec fn alphanumeric(c: char) -> bool;

/// `char::is_alphanumeric` decides whether a character is a letter or a number.
/// The result is [`alphanumeric`] of the character; which characters are is not
/// said.
#[verifier::external_body]
pub(crate) fn is_alnum(c: char) -> (r: bool)
    ensures
        r == alphanumeric(c),
{
    c.is_alphanumeric()
}

/// The length of the run of characters at the beginning of `marks` that belong
/// to a token.
pub open spec fn run_len(marks: Seq<bool>) -> int
    decreases marks.len(),
{
    if marks.len() == 0 || !marks[0] {
        0
    } else {
        1 + run_len(marks.skip(1))
    }
}

/// The maximal runs of `s` whose characters are marked, in order.
pub open spec fn runs(s: Seq<char>, marks: Seq<bool>) -> Seq<Seq<char>>
    decreases s.len(),
{
    if s.len() == 0 || marks.len() != s.len() {
        Seq::empty()
    } else if !marks[0] {
        runs(s.skip(1), marks.skip(1))
    } else {
        let n = run_len(marks);
        if 0 < n <= s.len() {
            seq![s.take(n)] + runs(s.skip(n), marks.skip(n))
        } else {
            Seq::empty()
        }
    }
}

/// Which characters of `s` belong to a token.
pub open spec fn token_marks(s: Seq<char>) -> Seq<bool> {
    Seq::new(s.len(), |i: int| alphanumeric(s[i]))
}

/// The tokens of a text: its maximal runs of letters and numbers, in order.
pub open spec fn tokens_of(s: Seq<char>) -> Seq<Seq<char>> {
    runs(s, token_marks(s))
}

proof fn lemma_run_len(marks: Seq<bool>)
    ensures
        0 <= run_len(marks) <= marks.len(),
        marks.len() > 0 && marks[0] ==> run_len(marks) > 0,
    decreases marks.len(),
{
    if marks.len() > 0 && marks[0] {
        lemma_run_len(marks.skip(1));
    }
}

/// Computes [`runs`].
pub fn split_runs(s: &str, marks: &Vec<bool>) -> (r: Vec<String>)
    requires
        marks@.len() == s@.len(),
    ensures
        text::texts(r@) == runs(s@, marks@),
{
    let v = to_chars(s);
    let mut out: Vec<String> = Vec::new();
    let mut i: usize = 0;
    assert(s@.skip(0) =~= s@);
    assert(marks@.skip(0) =~= marks@);
    assert(text::texts(out@) + runs(s@, marks@) =~= runs(s@, marks@));
    while i < v.len()
        invariant
            i <= v.len(),
            v@ == s@,
            marks@.len() == s@.len(),
            runs(s@, marks@) == text::texts(out@) + runs(s@.skip(i as int), marks@.skip(i as int)),
        decreases v.len() - i,
    {
        if !marks[i] {
            assert(s@.skip(i as int).skip(1) =~= s@.skip(i + 1));
            assert(marks@.skip(i as int).skip(1) =~= marks@.skip(i + 1));
            i += 1;
        } else {
            let start: usize = i;
            while i < v.len() && marks[i]
                invariant
                    start <= i <= v.len(),
                    marks@.len() == v@.len(),
                    run_len(marks@.skip(start as int)) == (i - start) + run_len(
                        marks@.skip(i as int),
                    ),
                decreases v.len() - i,
            {
                assert(marks@.skip(i as int).skip(1) =~= marks@.skip(i + 1));
                i += 1;
            }
            proof {
                lemma_run_len(marks@.skip(start as int));
                assert(s@.skip(start as int).take(i - start) =~= s@.subrange(start as int, i as int));
                assert(s@.skip(start as int).skip(i - start) =~= s@.skip(i as int));
                assert(marks@.skip(start as int).skip(i - start) =~= marks@.skip(i as int));
            }
            let ghost before = out@;
            out.push(text_of(vstd::slice::slice_subrange(v.as_slice(), start, i)));
            assert(text::texts(out@) =~= text::texts(before).push(
                s@.subrange(start as int, i as int),
            ));
            assert(text::texts(before) + (seq![s@.subrange(start as int, i as int)] + runs(
                s@.skip(i as int),
                marks@.skip(i as int),
            )) =~= text::texts(out@) + runs(s@.skip(i as int), marks@.skip(i as int)));
        }
    }
    assert(s@.skip(i as int).len() == 0);
    assert(text::texts(out@) + runs(s@.skip(i as int), marks@.skip(i as int)) =~= text::texts(out@));
    out
}

/// Computes [`tokens_of`].
pub fn semantic_tokens(s: &str) -> (r: Vec<String>)
    ensures
        text::texts(r@) == tokens_of(s@),
{
    let v = to_chars(s);
    let mut marks: Vec<bool> = Vec::new();
    let mut i: usize = 0;
    while i < v.len()
        invariant
            i <= v.len(),
            v@ == s@,
            marks@ == token_marks(s@).take(i as int),
        decreases v.len() - i,
    {
        marks.push(is_alnum(v[i]));
        assert(token_marks(s@).take(i + 1) =~= token_marks(s@).take(i as int).push(
            alphanumeric(s@[i as int]),
        ));
        i += 1;
    }
    assert(token_marks(s@).take(s@.len() as int) =~= token_marks(s@));
    split_runs(s, &marks)
}

/// The bytes of the BLAKE3 digest of some bytes.
pub uninterp spec fn digest_bytes(bytes: Seq<u8>) -> Seq<u8>;

/// `blake3::hash` and `Hash::as_bytes` give the digest of bytes as 32 bytes. The
/// result is [`digest_bytes`] of them.
#[verifier::external_body]
pub(crate) fn hash_bytes(bytes: &[u8]) -> (r: Vec<u8>)
    ensures
        r@ == digest_bytes(bytes@),
        r@.len() == 32,
{
    blake3::hash(bytes).as_bytes().to_vec()
}

/// The bytes that stand for a token.
pub fn token_bytes(token: &str) -> (r: Vec<u8>)
    ensures
        r@ == digest_bytes(vstd::utf8::encode_utf8(token@)),
        r@.len() == 32,
{
    hash_bytes(token.as_bytes())
}

/// The path of the semantic index.
pub open spec fn index_path(output_dir: Seq<char>) -> Seq<char> {
    fspath::join(fspath::join(output_dir, "search"@), "semantic-index.json"@)
}

/// Computes [`index_path`].
pub fn semantic_index_path(output_dir: &str) -> (r: String)
    ensures
        r@ == index_path(output_dir@),
{
    let dir = fspath::path_join(output_dir, "search");
    fspath::path_join(dir.as_str(), "semantic-index.json")
}

/// Tokens are what stands between characters that are neither letters nor digits: a text
/// of letters and digits is one token, any other character parts the tokens before it
/// from those behind it, and it is in none itself.
pub proof fn law_tokens(a: Seq<char>, c: char, b: Seq<char>)
    requires
        !alphanumeric(c),
    ensures
        tokens_of(a + seq![c] + b) == tokens_of(a) + tokens_of(b),
        a.len() > 0 && (forall|i: int| 0 <= i < a.len() ==> alphanumeric(#[trigger] a[i]))
            ==> tokens_of(a) == seq![a],
        tokens_of(Seq::empty()).len() == 0,
    decreases a.len(),
{
    let s = a + seq![c] + b;
    let ms = token_marks(s);
    let ma = token_marks(a);
    assert(token_marks(Seq::empty()) =~= Seq::empty());
    if a.len() == 0 {
        assert(s[0] == c);
        assert(!ms[0]);
        assert(s.skip(1) =~= b);
        assert(ms.skip(1) =~= token_marks(b));
        assert(tokens_of(a) + tokens_of(b) =~= tokens_of(b));
    } else if !alphanumeric(a[0]) {
        law_tokens(a.skip(1), c, b);
        assert(s[0] == a[0]);
        assert(!ms[0] && !ma[0]);
        assert(s.skip(1) =~= a.skip(1) + seq![c] + b);
        assert(ms.skip(1) =~= token_marks(s.skip(1)));
        assert(ma.skip(1) =~= token_marks(a.skip(1)));
    } else {
        let n = run_len(ma);
        lemma_run_of(a, c, b);
        assert(ma[0] && ms[0]);
        law_tokens(a.skip(n), c, b);
        assert(s.take(n) =~= a.take(n));
        assert(s.skip(n) =~= a.skip(n) + seq![c] + b);
        assert(ms.skip(n) =~= token_marks(s.skip(n)));
        assert(ma.skip(n) =~= token_marks(a.skip(n)));
        assert(tokens_of(s) =~= tokens_of(a) + tokens_of(b));
        if forall|i: int| 0 <= i < a.len() ==> alphanumeric(#[trigger] a[i]) {
            assert(a.take(n) =~= a);
            assert(a.skip(n) =~= Seq::empty());
            assert(tokens_of(a) =~= seq![a]);
        }
    }
}

proof fn lemma_run_of(a: Seq<char>, c: char, b: Seq<char>)
    requires
        !alphanumeric(c),
    ensures
        run_len(token_marks(a + seq![c] + b)) == run_len(token_marks(a)),
        0 <= run_len(token_marks(a)) <= a.len(),
        a.len() > 0 && alphanumeric(a[0]) ==> run_len(token_marks(a)) > 0,
        (forall|i: int| 0 <= i < a.len() ==> alphanumeric(#[trigger] a[i])) ==> run_len(
            token_marks(a),
        ) == a.len(),
    decreases a.len(),
{
    let s = a + seq![c] + b;
    let ms = token_marks(s);
    let ma = token_marks(a);
    if a.len() == 0 {
        assert(s[0] == c);
        assert(!ms[0]);
    } else {
        lemma_run_of(a.skip(1), c, b);
        assert(s[0] == a[0]);
        assert(ms[0] == ma[0]);
        assert(s.skip(1) =~= a.skip(1) + seq![c] + b);
        assert(ms.skip(1) =~= token_marks(s.skip(1)));
        assert(ma.skip(1) =~= token_marks(a.skip(1)));
        if forall|i: int| 0 <= i < a.len() ==> alphanumeric(#[trigger] a[i]) {
            assert forall|i: int| 0 <= i < a.skip(1).len() implies alphanumeric(
                #[trigger] a.skip(1)[i],
            ) by {
                assert(a.skip(1)[i] == a[i + 1]);
            }
            assert(alphanumeric(a[0]));
        }
    }
}

/// The index stands below the output directory, in that of the search.
pub proof fn law_place_of_the_index(output_dir: Seq<char>)
    requires
        output_dir.len() > 0 && output_dir.last() != '/',
    ensures
        index_path(output_dir) == output_dir + "/search/semantic-index.json"@,
{
    reveal_strlit("search");
    reveal_strlit("semantic-index.json");
    reveal_strlit("/search/semantic-index.json");
    let a = output_dir + seq!['/'] + "search"@;
    assert("search"@[0] == 's' && "semantic-index.json"@[0] == 's');
    assert(fspath::join(output_dir, "search"@) =~= a);
    assert(a.last() == 'h');
    assert(index_path(output_dir) =~= a + seq!['/'] + "semantic-index.json"@);
    assert(index_path(output_dir) =~= output_dir + "/search/semantic-index.json"@);
}

} // verus!
