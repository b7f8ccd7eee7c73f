use vstd::prelude::*;
use vstd::string::StringSliceAdditionalSpecFns;

verus! {

/// Whether a byte of an encoded payload is kept: carriage return and line
/// feed are line wrapping, not data.
pub open spec fn kept(b: u8) -> bool {
    b != 13u8 && b != 10u8
}

/// The bytes of `s` without carriage returns and line feeds, in their order.
pub open spec fn stripped(s: Seq<u8>) -> Seq<u8>
    decreases s.len(),
{
    if s.len() == 0 {
        Seq::empty()
    } else if kept(s.last()) {
        stripped(s.drop_last()).push(s.last())
    } else {
        stripped(s.drop_last())
    }
}

/// Removing line breaks from two runs one after the other gives what removing
/// them from each run gives, in the same order.
pub proof fn lemma_stripped_concat(a: Seq<u8>, b: Seq<u8>)
    ensures
        stripped(a + b) == stripped(a) + stripped(b),
    decreases b.len(),
{
    if b.len() == 0 {
        assert(a + b =~= a);
        assert(stripped(a) + stripped(b) =~= stripped(a));
    } else {
        let b0 = b.drop_last();
        lemma_stripped_concat(a, b0);
        assert((a + b).drop_last() =~= a + b0);
        assert((a + b).last() == b.last());
        if kept(b.last()) {
            assert(stripped(a) + stripped(b) =~= (stripped(a) + stripped(b0)).push(b.last()));
        } else {
            assert(stripped(a) + stripped(b) =~= stripped(a) + stripped(b0));
        }
    }
}

/// A run with its line breaks already removed is left as it is.
pub proof fn lemma_stripped_idempotent(s: Seq<u8>)
    ensures
        stripped(stripped(s)) == stripped(s),
    decreases s.len(),
{
    if s.len() > 0 {
        lemma_stripped_idempotent(s.drop_last());
        if kept(s.last()) {
            let p = stripped(s.drop_last());
            assert(p.push(s.last()).drop_last() =~= p);
            assert(p.push(s.last()).last() == s.last());
        }
    }
}

/// Appends the bytes of `text`, without line breaks, to `data`.
pub fn append_stripped(data: Vec<u8>, text: &str) -> (r: Vec<u8>)
    ensures
        r@ == data@ + stripped(text.spec_bytes()),
{
    let bytes = text.as_bytes();
    let mut r = data;
    let mut i: usize = 0;
    while i < bytes.len()
        invariant
            i <= bytes@.len(),
            bytes@ == text.spec_bytes(),
            r@ == data@ + stripped(bytes@.subrange(0, i as int)),
        decreases bytes@.len() - i,
    {
        let b = bytes[i];
        assert(bytes@.subrange(0, i + 1).drop_last() =~= bytes@.subrange(0, i as int));
        if b != 13u8 && b != 10u8 {
            r.push(b);
        }
        i = i + 1;
    }
    assert(bytes@.subrange(0, i as int) =~= bytes@);
    r
}

/// Base64 decoding with the standard alphabet, padding optional: the
/// decoded bytes, or `None` where the input is not valid.
pub uninterp spec fn base64_standard(s: Seq<u8>) -> Option<Seq<u8>>;

/// What the slug crate makes of a text.
pub uninterp spec fn slug_of(s: Seq<char>) -> Seq<char>;

/// A slug: only `a`-`z`, `0`-`9` and `-`, never two `-` in a row, never a
/// `-` at either end.
pub open spec fn is_slug(s: Seq<char>) -> bool {
    &&& forall|i: int|
        0 <= i < s.len() ==> (('a' <= #[trigger] s[i] <= 'z') || ('0' <= s[i] <= '9') || s[i]
            == '-')
    &&& forall|i: int| 0 <= i < s.len() - 1 ==> !(#[trigger] s[i] == '-' && s[i + 1] == '-')
    &&& s.len() > 0 ==> s[0] != '-' && s.last() != '-'
}

#[verifier::external_type_specification]
#[verifier::external_body]
pub struct ExDecodeError(base64::DecodeError);

/// Relies on base64::decode (0.13), which decodes with the standard
/// configuration and depends on its input alone.
#[verifier::external_body]
pub(crate) fn decode_standard(input: &Vec<u8>) -> (r: Result<Vec<u8>, base64::DecodeError>)
    ensures
        base64_standard(input@) is Some <==> r is Ok,
        r is Ok ==> r->Ok_0@ == base64_standard(input@)->0,
{
    base64::decode(input)
}

/// Relies on slug::slugify, whose result depends on the text alone and, as
/// its documentation states, is made of `a`-`z`, `0`-`9` and single `-`,
/// none at either end.
#[verifier::external_body]
pub(crate) fn slugify(text: &str) -> (r: String)
    ensures
        r@ == slug_of(text@),
        is_slug(r@),
{
    slug::slugify(text)
}

} // verus!
