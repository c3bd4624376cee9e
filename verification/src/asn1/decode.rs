//! The [`Decode`] / [`Encode`] traits and structured-value helpers.

use crate::asn1::error::{Error, Result};
use crate::asn1::reader::{advanced, spec_read_tlv, Config, EncodingRule, Reader};
use crate::asn1::tag::{spec_decode_tag, spec_encode_tag, spec_universal_constructed, Tag};
use crate::asn1::writer::{WriteBackend, Writer};
use crate::asn1::util::lex_greater;
use vstd::prelude::*;

verus! {

broadcast use crate::asn1::reader::Reader::lemma_nonneg;

/// A type that can be decoded from ASN.1, borrowing from the input where possible.
///
/// Every decoder consumes at least one byte when it succeeds, never switches
/// the reader to another input, configuration or depth, and does what its
/// [`Decode::spec_decode`] says.
pub trait Decode<'a>: Sized + View {
    /// What decoding `Self` at `pos` of `s`, under `config` and at nesting
    /// `depth`, gives: the value (by its view) and the offset after it, or
    /// the error.
    spec fn spec_decode(s: Seq<u8>, pos: int, config: Config, depth: int) -> Result<(Self::V, int)>;

    /// Decode `Self` from `r`.
    fn decode(r: &mut Reader<'a>) -> (res: Result<Self>)
        ensures
            advanced(*old(r), *final(r)),
            final(r).spec_pos() <= final(r).spec_input().len(),
            res is Ok ==> old(r).spec_pos() < final(r).spec_pos(),
            decoded(*old(r), *final(r), res, Self::spec_decode(old(r).spec_input(), old(r).spec_pos(), old(r).spec_config(), old(r).spec_depth())),
    ;
}

/// A type that can be encoded to ASN.1 (DER/BER/CER).
///
/// An encoder whose type declares [`Encode::obeys_encoding_spec`] does what
/// its [`Encode::spec_encoding`] says: on a destination that takes every
/// write, it appends exactly those bytes, or it returns that error. Every
/// encoder of this library declares it; one written elsewhere promises
/// nothing unless it does too.
pub trait Encode {
    /// Whether `encode` follows `spec_encoding`.
    open spec fn obeys_encoding_spec() -> bool {
        false
    }

    /// The bytes that encoding `self` appends, or the error it gives.
    open spec fn spec_encoding(&self) -> Result<Seq<u8>> {
        arbitrary()
    }

    /// Encode `self` into `w`.
    fn encode<W: WriteBackend>(&self, w: &mut Writer<W>) -> (res: Result<()>)
        ensures
            Self::obeys_encoding_spec() ==> match self.spec_encoding() {
                Ok(b) => res is Ok && (W::appends_all() ==> final(w).spec_written() == old(w).spec_written() + b),
                Err(e) => res == Err::<(), Error>(e),
            },
    ;
}

/// The element at `pos` when its tag must be `expected`: the bounds of its
/// value and the offset after it.
pub open spec fn spec_expect_tlv(s: Seq<u8>, pos: int, config: Config, expected: Tag) -> Result<(int, int, int)> {
    match spec_read_tlv(s, pos, config) {
        Err(e) => Err(e),
        Ok((t, _, a, b, n)) => if t == expected {
            Ok((a, b, n))
        } else {
            Err(Error::UnexpectedTag { expected, actual: t })
        },
    }
}

/// A read of an element tagged `expected` from `old`, ending in `new` with
/// `res`, returned the element's value bytes (or the error).
pub open spec fn value_read<'a>(old: Reader<'a>, new: Reader<'a>, res: Result<&'a [u8]>, expected: Tag) -> bool {
    &&& new.same_source(old)
    &&& old.spec_pos() <= new.spec_pos()
    &&& new.spec_pos() <= new.spec_input().len()
    &&& match spec_expect_tlv(old.spec_input(), old.spec_pos(), old.spec_config(), expected) {
        Ok((a, b, n)) => res is Ok && res->Ok_0@ == old.spec_input().subrange(a, b) && new.spec_pos() == n,
        Err(e) => res == Err::<&'a [u8], Error>(e),
    }
}

/// Entering the element tagged `expected` from `old` (ending in `new`)
/// gave `res`: a reader over its value, one level deeper, or the error.
pub open spec fn entered<'a>(old: Reader<'a>, new: Reader<'a>, res: Result<Reader<'a>>, expected: Tag) -> bool {
    &&& new.same_source(old)
    &&& old.spec_pos() <= new.spec_pos()
    &&& new.spec_pos() <= new.spec_input().len()
    &&& match spec_expect_tlv(old.spec_input(), old.spec_pos(), old.spec_config(), expected) {
        Ok((a, b, n)) => {
            &&& new.spec_pos() == n
            &&& if old.spec_depth() + 1 > old.spec_config().max_recursion {
                res == Err::<Reader<'a>, Error>(Error::RecursionLimitExceeded)
            } else {
                &&& res is Ok
                &&& res->Ok_0.spec_input() == old.spec_input().subrange(a, b)
                &&& res->Ok_0.spec_pos() == 0
                &&& res->Ok_0.spec_config() == old.spec_config()
                &&& res->Ok_0.spec_depth() == old.spec_depth() + 1
            }
        },
        Err(e) => res == Err::<Reader<'a>, Error>(e),
    }
}

/// `res` carries the value whose view `spec` prescribes, or its error.
pub open spec fn view_result<T: View>(res: Result<T>, spec: Result<T::V>) -> bool {
    match spec {
        Ok(v) => res is Ok && res->Ok_0@ == v,
        Err(e) => res == Err::<T, Error>(e),
    }
}

/// A decode of a primitive element tagged `expected` from `old`, ending in
/// `new` with `res`, consumed the element and interpreted its value bytes as
/// `content` prescribes (or failed with the element's error).
pub open spec fn primitive_read<'a, T: View>(
    old: Reader<'a>,
    new: Reader<'a>,
    res: Result<T>,
    expected: Tag,
    content: spec_fn(Seq<u8>) -> Result<T::V>,
) -> bool {
    &&& new.same_source(old)
    &&& old.spec_pos() <= new.spec_pos()
    &&& new.spec_pos() <= new.spec_input().len()
    &&& match spec_expect_tlv(old.spec_input(), old.spec_pos(), old.spec_config(), expected) {
        Ok((a, b, n)) => new.spec_pos() == n && view_result(res, content(old.spec_input().subrange(a, b))),
        Err(e) => res == Err::<T, Error>(e),
    }
}

/// A decode of content bytes from `old` (the tag and length already
/// consumed), ending in `new` with `res`, read all the remaining bytes and
/// interpreted them as `content` prescribes.
pub open spec fn content_read<'a, T: View>(
    old: Reader<'a>,
    new: Reader<'a>,
    res: Result<T>,
    content: spec_fn(Seq<u8>) -> Result<T::V>,
) -> bool {
    &&& new.same_source(old)
    &&& new.spec_pos() == new.spec_input().len()
    &&& view_result(res, content(old.spec_rest()))
}

/// The primitive element tagged `expected` at `pos` of `s`, its value bytes
/// interpreted by `content`: the value and the offset after the element.
pub open spec fn spec_prim_at<V>(
    s: Seq<u8>,
    pos: int,
    config: Config,
    expected: Tag,
    content: spec_fn(Seq<u8>) -> Result<V>,
) -> Result<(V, int)> {
    match spec_expect_tlv(s, pos, config, expected) {
        Err(e) => Err(e),
        Ok((a, b, n)) => match content(s.subrange(a, b)) {
            Ok(v) => Ok((v, n)),
            Err(e) => Err(e),
        },
    }
}

/// The constructed element tagged `expected` at `pos` of `s`, met at nesting
/// `depth`: its value bytes are read one level deeper by `body` (given those
/// bytes and the inner depth); the result and the offset after the element.
pub open spec fn spec_nested_at<V>(
    s: Seq<u8>,
    pos: int,
    config: Config,
    depth: int,
    expected: Tag,
    body: spec_fn(Seq<u8>, int) -> Result<V>,
) -> Result<(V, int)> {
    match spec_expect_tlv(s, pos, config, expected) {
        Err(e) => Err(e),
        Ok((a, b, n)) => if depth + 1 > config.max_recursion {
            Err(Error::RecursionLimitExceeded)
        } else {
            match body(s.subrange(a, b), depth + 1) {
                Ok(v) => Ok((v, n)),
                Err(e) => Err(e),
            }
        },
    }
}

/// A decode from `old`, ending in `new` with `res`, did what `spec`
/// prescribes: the value (by its view) and the offset after it, or the error.
pub open spec fn decoded<'a, T: View>(old: Reader<'a>, new: Reader<'a>, res: Result<T>, spec: Result<(T::V, int)>) -> bool {
    &&& new.same_source(old)
    &&& old.spec_pos() <= new.spec_pos()
    &&& new.spec_pos() <= new.spec_input().len()
    &&& match spec {
        Ok((v, n)) => res is Ok && res->Ok_0@ == v && new.spec_pos() == n,
        Err(e) => res == Err::<T, Error>(e),
    }
}

/// The items read one after another by `item` (given the bytes and an
/// offset: the value and the offset after it) from `pos` to the end of `s`,
/// or the first error. An item that would not move forward ends the list.
pub open spec fn spec_items_from<V>(s: Seq<u8>, pos: int, item: spec_fn(Seq<u8>, int) -> Result<(V, int)>) -> Result<Seq<V>>
    decreases s.len() - pos,
{
    if pos < 0 || pos >= s.len() {
        Ok(Seq::empty())
    } else {
        match item(s, pos) {
            Err(e) => Err(e),
            Ok((v, n)) => if pos < n <= s.len() {
                match spec_items_from(s, n, item) {
                    Ok(rest) => Ok(seq![v] + rest),
                    Err(e) => Err(e),
                }
            } else {
                Ok(Seq::empty())
            },
        }
    }
}

/// `done` followed by what `rest` holds, or `rest`'s error.
pub open spec fn spec_prepend<V, E>(done: Seq<V>, rest: core::result::Result<Seq<V>, E>) -> core::result::Result<Seq<V>, E> {
    match rest {
        Ok(r) => Ok(done + r),
        Err(e) => Err(e),
    }
}

/// What a value read from the start of `bytes` gives when it must fill
/// them: the value, or `TrailingData` if bytes are left, or the error.
pub open spec fn spec_filling<V>(bytes: Seq<u8>, r: Result<(V, int)>) -> Result<V> {
    match r {
        Err(e) => Err(e),
        Ok((v, n)) => if n < bytes.len() {
            Err(Error::TrailingData)
        } else {
            Ok(v)
        },
    }
}

/// Reading one `T` of a list under `config` at nesting `depth`.
pub open spec fn spec_decode_item<'a, T: Decode<'a>>(config: Config, depth: int) -> spec_fn(Seq<u8>, int) -> Result<(T::V, int)> {
    |s: Seq<u8>, p: int| T::spec_decode(s, p, config, depth)
}

/// The elements of a `SET OF T` content `c` from `pos` (under `config`, at
/// nesting `depth`), in input order, each with its encoding; under DER and
/// CER no element's encoding may sort before the one before it (`prev`).
pub open spec fn spec_set_of_from<'a, T: Decode<'a>>(c: Seq<u8>, pos: int, config: Config, depth: int, prev: Option<Seq<u8>>) -> Result<
    Seq<(Seq<u8>, T::V)>,
>
    decreases c.len() - pos,
{
    if pos < 0 || pos >= c.len() {
        Ok(Seq::empty())
    } else {
        match T::spec_decode(c, pos, config, depth) {
            Err(e) => Err(e),
            Ok((v, n)) => if pos < n <= c.len() {
                let elem = c.subrange(pos, n);
                if config.rule != EncodingRule::Ber && (prev matches Some(p) && crate::asn1::util::spec_lex_lt(elem, p)) {
                    Err(Error::SetOfNotSorted)
                } else {
                    match spec_set_of_from::<T>(c, n, config, depth, if config.rule != EncodingRule::Ber { Some(elem) } else { prev }) {
                        Ok(rest) => Ok(seq![(elem, v)] + rest),
                        Err(e) => Err(e),
                    }
                }
            } else {
                Ok(Seq::empty())
            },
        }
    }
}

/// `sorted` with `x` inserted after every entry whose encoding does not
/// sort after `x`'s (so entries with equal encodings keep their order).
pub open spec fn spec_insert_entry<V>(sorted: Seq<(Seq<u8>, V)>, x: (Seq<u8>, V)) -> Seq<(Seq<u8>, V)>
    decreases sorted.len(),
{
    if sorted.len() == 0 {
        seq![x]
    } else if crate::asn1::util::spec_lex_lt(x.0, sorted.last().0) {
        spec_insert_entry(sorted.drop_last(), x).push(sorted.last())
    } else {
        sorted.push(x)
    }
}

/// The entries `es` in canonical order: ascending by encoding, and in input
/// order among equal encodings.
pub open spec fn spec_sort_entries<V>(es: Seq<(Seq<u8>, V)>) -> Seq<(Seq<u8>, V)>
    decreases es.len(),
{
    if es.len() == 0 {
        es
    } else {
        spec_insert_entry(spec_sort_entries(es.drop_last()), es.last())
    }
}

/// The elements a `SET OF T` content `c` yields from `pos`: under DER and
/// CER they must already be in canonical order and come back as they are;
/// under BER they come back in canonical order.
pub open spec fn spec_set_of_content<'a, T: Decode<'a>>(c: Seq<u8>, pos: int, config: Config, depth: int) -> Result<Seq<T::V>> {
    match spec_set_of_from::<T>(c, pos, config, depth, None) {
        Err(e) => Err(e),
        Ok(es) => Ok(
            (if config.rule == EncodingRule::Ber {
                spec_sort_entries(es)
            } else {
                es
            }).map_values(|e: (Seq<u8>, T::V)| e.1),
        ),
    }
}

/// Inserting `x` where the encodings before it do not sort after it and
/// those from `j` on do is inserting it at `j`.
pub proof fn lemma_insert_entry_at<V>(s: Seq<(Seq<u8>, V)>, x: (Seq<u8>, V), j: int)
    requires
        0 <= j <= s.len(),
        forall|k: int| j <= k < s.len() ==> crate::asn1::util::spec_lex_lt(x.0, (#[trigger] s[k]).0),
        j == 0 || !crate::asn1::util::spec_lex_lt(x.0, s[j - 1].0),
    ensures
        spec_insert_entry(s, x) == s.insert(j, x),
    decreases s.len(),
{
    if s.len() == 0 {
        assert(s.insert(0, x) =~= seq![x]);
    } else if j == s.len() {
        assert(s.insert(j, x) =~= s.push(x));
    } else {
        assert(crate::asn1::util::spec_lex_lt(x.0, s[s.len() - 1].0));
        lemma_insert_entry_at(s.drop_last(), x, j);
        assert(s.drop_last().insert(j, x).push(s.last()) =~= s.insert(j, x));
    }
}

/// The entries of `keys` and `vals`, position by position.
pub open spec fn spec_pairs<T: View>(keys: Seq<&[u8]>, vals: Seq<T>) -> Seq<(Seq<u8>, T::V)> {
    Seq::new(vals.len(), |i: int| (keys[i]@, vals[i]@))
}

/// One step of [`spec_set_of_from`]: the element at `pos` read as `v`,
/// ending at `n`.
pub proof fn lemma_set_of_step<'a, T: Decode<'a>>(
    c: Seq<u8>,
    pos: int,
    config: Config,
    depth: int,
    prev: Option<Seq<u8>>,
    done: Seq<(Seq<u8>, T::V)>,
    v: T::V,
    n: int,
)
    requires
        0 <= pos < n <= c.len(),
        T::spec_decode(c, pos, config, depth) == Ok::<(T::V, int), Error>((v, n)),
    ensures
        ({
            let elem = c.subrange(pos, n);
            if config.rule != EncodingRule::Ber && (prev matches Some(p) && crate::asn1::util::spec_lex_lt(elem, p)) {
                spec_set_of_from::<T>(c, pos, config, depth, prev) == Err::<Seq<(Seq<u8>, T::V)>, Error>(Error::SetOfNotSorted)
            } else {
                spec_prepend(done, spec_set_of_from::<T>(c, pos, config, depth, prev)) == spec_prepend(
                    done.push((elem, v)),
                    spec_set_of_from::<T>(c, n, config, depth, if config.rule != EncodingRule::Ber { Some(elem) } else { prev }),
                )
            }
        }),
{
    let elem = c.subrange(pos, n);
    let np = if config.rule != EncodingRule::Ber { Some(elem) } else { prev };
    match spec_set_of_from::<T>(c, n, config, depth, np) {
        Ok(rest) => {
            assert(done + (seq![(elem, v)] + rest) =~= done.push((elem, v)) + rest);
        },
        Err(_) => {},
    }
}

/// `res` holds the values (by their views) that `spec` lists, or its error.
pub open spec fn list_result<T: View, E>(res: core::result::Result<Vec<T>, E>, spec: core::result::Result<Seq<T::V>, E>) -> bool {
    match spec {
        Ok(vs) => res is Ok && res->Ok_0@.map_values(|x: T| x@) == vs,
        Err(e) => res == Err::<Vec<T>, E>(e),
    }
}

/// One step of a list read: the item at `pos` moved to `n`, so the list from
/// `pos` is that item followed by the list from `n`.
pub proof fn lemma_items_step<V, E>(
    s: Seq<u8>,
    pos: int,
    item: spec_fn(Seq<u8>, int) -> Result<(V, int)>,
    done: Seq<V>,
    v: V,
    n: int,
)
    requires
        0 <= pos < n <= s.len(),
        item(s, pos) == Ok::<(V, int), Error>((v, n)),
    ensures
        spec_prepend(done, spec_items_from(s, pos, item)) == spec_prepend(done.push(v), spec_items_from(s, n, item)),
{
    match spec_items_from(s, n, item) {
        Ok(rest) => {
            assert(done + (seq![v] + rest) =~= done.push(v) + rest);
        },
        Err(_) => {},
    }
}

/// A complete element starts with a tag, so it is at least one byte long.
pub proof fn lemma_expect_tlv_progress(s: Seq<u8>, pos: int, config: Config, expected: Tag)
    ensures
        spec_expect_tlv(s, pos, config, expected) matches Ok((a, b, n)) ==> pos < a <= b <= n <= s.len(),
{
    crate::asn1::reader::lemma_read_tlv_bounds(s, pos, config);
}

/// Read the next element, require its tag to be `expected`, and return a
/// reader over its value one nesting level deeper.
pub(crate) fn enter<'a>(r: &mut Reader<'a>, expected: Tag) -> (res: Result<Reader<'a>>)
    ensures
        entered(*old(r), *final(r), res, expected),
        res is Ok ==> old(r).spec_pos() < final(r).spec_pos(),
{
    let (tag, _len, content) = r.read_tlv()?;
    if tag != expected {
        return Err(Error::UnexpectedTag { expected, actual: tag });
    }
    r.sub_reader(content)
}

/// Require that `inner` has been read to its end.
pub(crate) fn finish(inner: &Reader<'_>) -> (res: Result<()>)
    ensures
        res is Ok <==> inner.spec_pos() >= inner.spec_input().len(),
        res is Err ==> res == Err::<(), Error>(Error::TrailingData),
{
    if !inner.is_empty() {
        return Err(Error::TrailingData);
    }
    Ok(())
}

/// Assert that the next tag equals `expected`.
pub fn expect_tag(r: &mut Reader<'_>, expected: Tag) -> (res: Result<()>)
    ensures
        final(r).same_source(*old(r)),
        match spec_decode_tag(old(r).spec_input(), old(r).spec_pos()) {
            Ok((t, p)) => final(r).spec_pos() == p && if t == expected {
                res is Ok
            } else {
                res == Err::<(), Error>(Error::UnexpectedTag { expected, actual: t })
            },
            Err(e) => res == Err::<(), Error>(e),
        },
{
    let actual = r.read_tag()?;
    if actual == expected {
        Ok(())
    } else {
        Err(Error::UnexpectedTag { expected, actual })
    }
}

/// Read a primitive value, asserting its tag is `expected`, and return the
/// value bytes (borrowed from the input).
pub fn read_primitive<'a>(r: &mut Reader<'a>, expected: Tag) -> (res: Result<&'a [u8]>)
    ensures
        value_read(*old(r), *final(r), res, expected),
        res is Ok ==> old(r).spec_pos() < final(r).spec_pos(),
{
    let (tag, _len, value) = r.read_tlv()?;
    if tag == expected {
        Ok(value)
    } else {
        Err(Error::UnexpectedTag { expected, actual: tag })
    }
}

/// Read an EXPLICIT-tagged value: the outer `tag` wraps the encoded `T`,
/// which must fill it exactly.
pub fn read_explicit<'a, T: Decode<'a>>(r: &mut Reader<'a>, tag: Tag) -> (res: Result<T>)
    ensures
        final(r).same_source(*old(r)),
        decoded(
            *old(r),
            *final(r),
            res,
            spec_nested_at(
                old(r).spec_input(),
                old(r).spec_pos(),
                old(r).spec_config(),
                old(r).spec_depth(),
                tag,
                |c: Seq<u8>, d: int| spec_filling(c, T::spec_decode(c, 0, old(r).spec_config(), d)),
            ),
        ),
        match spec_expect_tlv(old(r).spec_input(), old(r).spec_pos(), old(r).spec_config(), tag) {
            Ok((_, _, n)) => final(r).spec_pos() == n && (old(r).spec_depth() + 1 > old(r).spec_config().max_recursion
                ==> res == Err::<T, Error>(Error::RecursionLimitExceeded)),
            Err(e) => res == Err::<T, Error>(e),
        },
{
    proof { lemma_expect_tlv_progress(r.spec_input(), r.spec_pos(), r.spec_config(), tag); }
    let mut inner = enter(r, tag)?;
    let v = T::decode(&mut inner)?;
    finish(&inner)?;
    Ok(v)
}

/// Decode a `SEQUENCE` (or `SEQUENCE OF`), passing a sub-reader over its
/// content to `f`. Trailing data inside the sequence is rejected.
pub fn read_sequence<'a, F, R>(r: &mut Reader<'a>, f: F) -> (res: Result<R>)
    where
        F: FnOnce(&mut Reader<'a>) -> Result<R>,
    requires
        forall|x: &mut Reader<'a>| call_requires(f, (x,)),
    ensures
        final(r).same_source(*old(r)),
        match spec_expect_tlv(old(r).spec_input(), old(r).spec_pos(), old(r).spec_config(), spec_universal_constructed(16)) {
            Ok((a, b, n)) => final(r).spec_pos() == n && if old(r).spec_depth() + 1 > old(r).spec_config().max_recursion {
                res == Err::<R, Error>(Error::RecursionLimitExceeded)
            } else {
                exists|x: &mut Reader<'a>, out: Result<R>| {
                    &&& x.spec_input() == old(r).spec_input().subrange(a, b)
                    &&& x.spec_pos() == 0
                    &&& x.spec_config() == old(r).spec_config()
                    &&& x.spec_depth() == old(r).spec_depth() + 1
                    &&& #[trigger] call_ensures(f, (x,), out)
                    &&& match out {
                        Err(e) => res == Err::<R, Error>(e),
                        Ok(v) => if final(x).spec_pos() == final(x).spec_input().len() {
                            res == Ok::<R, Error>(v)
                        } else {
                            res == Err::<R, Error>(Error::TrailingData)
                        },
                    }
                }
            },
            Err(e) => res == Err::<R, Error>(e),
        },
{
    let expected = Tag::universal_constructed(Tag::SEQUENCE);
    let mut inner = enter(r, expected)?;
    let out = f(&mut inner)?;
    if !inner.is_empty() {
        return Err(Error::TrailingData);
    }
    Ok(out)
}

/// Decode a `SET` (heterogeneous, tagged fields), passing a sub-reader over its
/// content to `f`.
pub fn read_set<'a, F, R>(r: &mut Reader<'a>, f: F) -> (res: Result<R>)
    where
        F: FnOnce(&mut Reader<'a>) -> Result<R>,
    requires
        forall|x: &mut Reader<'a>| call_requires(f, (x,)),
    ensures
        final(r).same_source(*old(r)),
        match spec_expect_tlv(old(r).spec_input(), old(r).spec_pos(), old(r).spec_config(), spec_universal_constructed(17)) {
            Ok((a, b, n)) => final(r).spec_pos() == n && if old(r).spec_depth() + 1 > old(r).spec_config().max_recursion {
                res == Err::<R, Error>(Error::RecursionLimitExceeded)
            } else {
                exists|x: &mut Reader<'a>, out: Result<R>| {
                    &&& x.spec_input() == old(r).spec_input().subrange(a, b)
                    &&& x.spec_pos() == 0
                    &&& x.spec_config() == old(r).spec_config()
                    &&& x.spec_depth() == old(r).spec_depth() + 1
                    &&& #[trigger] call_ensures(f, (x,), out)
                    &&& match out {
                        Err(e) => res == Err::<R, Error>(e),
                        Ok(v) => if final(x).spec_pos() == final(x).spec_input().len() {
                            res == Ok::<R, Error>(v)
                        } else {
                            res == Err::<R, Error>(Error::TrailingData)
                        },
                    }
                }
            },
            Err(e) => res == Err::<R, Error>(e),
        },
{
    let expected = Tag::universal_constructed(Tag::SET);
    let mut inner = enter(r, expected)?;
    let out = f(&mut inner)?;
    if !inner.is_empty() {
        return Err(Error::TrailingData);
    }
    Ok(out)
}

/// The number of identifier octets at the start of `encoded` as
/// `retag_implicit` counts them.
pub open spec fn spec_tag_len(encoded: Seq<u8>) -> Option<int> {
    if encoded.len() == 0 {
        None
    } else if encoded[0] % 32 == 31 {
        match spec_first_clear_from(encoded, 1) {
            Some(t) => Some(t + 1),
            None => None,
        }
    } else {
        Some(1)
    }
}

/// The first index at or after `t` whose byte has the top bit clear.
pub open spec fn spec_first_clear_from(s: Seq<u8>, t: int) -> Option<int>
    decreases s.len() - t,
{
    if t < 0 || t >= s.len() {
        None
    } else if s[t] < 0x80 {
        Some(t)
    } else {
        spec_first_clear_from(s, t + 1)
    }
}

pub proof fn lemma_first_clear_from(s: Seq<u8>, t: int)
    ensures
        spec_first_clear_from(s, t) matches Some(e) ==> t <= e < s.len() && 0 <= e,
    decreases s.len() - t,
{
    if 0 <= t < s.len() && s[t] >= 0x80 {
        lemma_first_clear_from(s, t + 1);
    }
}

/// Re-tag a previously encoded TLV with `new_tag`, preserving its length and
/// content (IMPLICIT tagging). Returns the re-tagged encoding.
#[verifier::loop_isolation(false)]
pub fn retag_implicit(encoded: &[u8], new_tag: Tag) -> (res: Result<Vec<u8>>)
    ensures
        match spec_tag_len(encoded@) {
            None => res == Err::<Vec<u8>, Error>(Error::InvalidTag),
            Some(k) => res is Ok && res->Ok_0@ == spec_encode_tag(new_tag) + encoded@.subrange(k, encoded@.len() as int),
        },
{
    if encoded.is_empty() {
        return Err(Error::InvalidTag);
    }
    let b0 = encoded[0];
    assert((b0 & 0x1f) == b0 % 32) by (bit_vector);
    let tag_len = if (b0 & 0x1f) == 0x1f {
        let mut t: usize = 1;
        loop
            invariant
                1 <= t <= encoded@.len(),
                b0 == encoded@[0],
                b0 % 32 == 31,
                spec_first_clear_from(encoded@, t as int) == spec_first_clear_from(encoded@, 1),
            decreases encoded@.len() - t,
        {
            if t >= encoded.len() {
                return Err(Error::InvalidTag);
            }
            let bt = encoded[t];
            assert((bt & 0x80 != 0) == (bt >= 0x80)) by (bit_vector);
            if bt & 0x80 == 0 {
                break;
            }
            t += 1;
        }
        proof { lemma_first_clear_from(encoded@, 1); }
        t + 1
    } else {
        1
    };
    let mut w = Writer::new_vec();
    new_tag.encode(&mut w)?;
    w.write_bytes(&encoded[tag_len..encoded.len()])?;
    Ok(w.into_vec())
}

/// Decode a `SET OF T` (homogeneous), returning the elements in canonical
/// order.
///
/// Under DER/CER the elements are validated to appear in canonical (ascending
/// encoded) order.
pub fn read_set_of<'a, T: Decode<'a>>(r: &mut Reader<'a>) -> (res: Result<Vec<T>>)
    ensures
        final(r).same_source(*old(r)),
        match spec_nested_at(
            old(r).spec_input(),
            old(r).spec_pos(),
            old(r).spec_config(),
            old(r).spec_depth(),
            spec_universal_constructed(17),
            |c: Seq<u8>, d: int| spec_set_of_content::<T>(c, 0, old(r).spec_config(), d),
        ) {
            Ok((v, n)) => res is Ok && res->Ok_0@.map_values(|x: T| x@) == v && final(r).spec_pos() == n,
            Err(e) => res == Err::<Vec<T>, Error>(e),
        },
        match spec_expect_tlv(old(r).spec_input(), old(r).spec_pos(), old(r).spec_config(), spec_universal_constructed(17)) {
            Ok((_, _, n)) => final(r).spec_pos() == n && (old(r).spec_depth() + 1 > old(r).spec_config().max_recursion
                ==> res == Err::<Vec<T>, Error>(Error::RecursionLimitExceeded)),
            Err(e) => res == Err::<Vec<T>, Error>(e),
        },
{
    let expected = Tag::universal_constructed(Tag::SET);
    let mut inner = enter(r, expected)?;
    read_set_of_content(&mut inner)
}

/// Like [`read_set_of`] but decodes from a reader already positioned at the
/// `SET OF` content (used for IMPLICIT-tagged `SET OF`).
pub fn read_set_of_content<'a, T: Decode<'a>>(r: &mut Reader<'a>) -> (res: Result<Vec<T>>)
    ensures
        final(r).same_source(*old(r)),
        res is Ok ==> final(r).spec_pos() == final(r).spec_input().len(),
        list_result(res, spec_set_of_content::<T>(old(r).spec_input(), old(r).spec_pos(), old(r).spec_config(), old(r).spec_depth())),
{
    let rule = r.config().rule;
    let ghost c = r.spec_input();
    let ghost config = r.spec_config();
    let ghost depth = r.spec_depth();
    let ghost p0 = r.spec_pos();
    let mut out: Vec<T> = Vec::new();
    let mut keys: Vec<&'a [u8]> = Vec::new();
    let mut prev: Option<Vec<u8>> = None;
    let ghost gprev: Option<Seq<u8>> = None;
    let ghost ents: Seq<(Seq<u8>, T::V)> = Seq::empty();
    assert(spec_prepend(ents, spec_set_of_from::<T>(c, p0, config, depth, None))
        =~= spec_set_of_from::<T>(c, p0, config, depth, None));
    assert(spec_pairs(keys@, out@) =~= ents);
    while !r.is_empty()
        invariant
            r.same_source(*old(r)),
            c == old(r).spec_input(),
            config == old(r).spec_config(),
            depth == old(r).spec_depth(),
            p0 == old(r).spec_pos(),
            rule == config.rule,
            r.spec_input() == c,
            r.spec_config() == config,
            r.spec_depth() == depth,
            gprev == (match prev {
                Some(p) => Some(p@),
                None => None::<Seq<u8>>,
            }),
            spec_prepend(ents, spec_set_of_from::<T>(c, r.spec_pos(), config, depth, gprev))
                == spec_set_of_from::<T>(c, p0, config, depth, None),
            keys@.len() == out@.len(),
            spec_pairs(keys@, out@) == (if rule == EncodingRule::Ber {
                spec_sort_entries(ents)
            } else {
                ents
            }),
        decreases r.spec_input().len() - r.spec_pos(),
    {
        let start = r.position();
        let ghost gp = gprev;
        let ghost before = ents;
        let v = T::decode(r)?;
        let end = r.position();
        proof { lemma_set_of_step::<T>(c, start as int, config, depth, gp, before, v@, end as int); }
        let elem = r.slice(start, end);
        if rule != EncodingRule::Ber {
            if let Some(p) = &prev {
                if lex_greater(p.as_slice(), elem) {
                    return Err(Error::SetOfNotSorted);
                }
            }
            prev = Some(vstd::slice::slice_to_vec(elem));
            proof { gprev = Some(elem@); }
            out.push(v);
            keys.push(elem);
            proof {
                ents = before.push((elem@, v@));
                assert(spec_pairs(keys@, out@) =~= ents);
            }
        } else {
            // Insert after every element whose encoding does not sort after
            // this one's, keeping the elements in canonical order.
            let ghost sorted = spec_pairs(keys@, out@);
            let mut j: usize = out.len();
            while j > 0 && lex_greater(keys[j - 1], elem)
                invariant
                    j <= keys@.len(),
                    keys@.len() == out@.len(),
                    sorted == spec_pairs(keys@, out@),
                    forall|k: int| j <= k < sorted.len() ==> crate::asn1::util::spec_lex_lt(elem@, (#[trigger] sorted[k]).0),
                decreases j,
            {
                j -= 1;
            }
            proof {
                lemma_insert_entry_at(sorted, (elem@, v@), j as int);
            }
            out.insert(j, v);
            keys.insert(j, elem);
            proof {
                ents = before.push((elem@, v@));
                assert(ents.drop_last() =~= before);
                assert(spec_pairs(keys@, out@) =~= sorted.insert(j as int, (elem@, v@)));
            }
        }
    }
    proof {
        let fin = if rule == EncodingRule::Ber { spec_sort_entries(ents) } else { ents };
        assert(ents + Seq::<(Seq<u8>, T::V)>::empty() =~= ents);
        assert(out@.map_values(|x: T| x@) =~= fin.map_values(|e: (Seq<u8>, T::V)| e.1));
    }
    Ok(out)
}

/// Decode a `SEQUENCE OF T` (homogeneous), returning the elements in order.
pub fn read_sequence_of<'a, T: Decode<'a>>(r: &mut Reader<'a>) -> (res: Result<Vec<T>>)
    ensures
        final(r).same_source(*old(r)),
        match spec_nested_at(
            old(r).spec_input(),
            old(r).spec_pos(),
            old(r).spec_config(),
            old(r).spec_depth(),
            spec_universal_constructed(16),
            |c: Seq<u8>, d: int| spec_items_from(c, 0, spec_decode_item::<T>(old(r).spec_config(), d)),
        ) {
            Ok((v, n)) => res is Ok && res->Ok_0@.map_values(|x: T| x@) == v && final(r).spec_pos() == n,
            Err(e) => res == Err::<Vec<T>, Error>(e),
        },
        match spec_expect_tlv(old(r).spec_input(), old(r).spec_pos(), old(r).spec_config(), spec_universal_constructed(16)) {
            Ok((_, _, n)) => final(r).spec_pos() == n && (old(r).spec_depth() + 1 > old(r).spec_config().max_recursion
                ==> res == Err::<Vec<T>, Error>(Error::RecursionLimitExceeded)),
            Err(e) => res == Err::<Vec<T>, Error>(e),
        },
{
    let expected = Tag::universal_constructed(Tag::SEQUENCE);
    let mut inner = enter(r, expected)?;
    read_sequence_of_content(&mut inner)
}

/// Like [`read_sequence_of`] but decodes from a reader already positioned at
/// the `SEQUENCE OF` content.
pub fn read_sequence_of_content<'a, T: Decode<'a>>(r: &mut Reader<'a>) -> (res: Result<Vec<T>>)
    ensures
        final(r).same_source(*old(r)),
        res is Ok ==> final(r).spec_pos() == final(r).spec_input().len(),
        list_result(res, spec_items_from(old(r).spec_input(), old(r).spec_pos(), spec_decode_item::<T>(old(r).spec_config(), old(r).spec_depth()))),
{
    let ghost c = r.spec_input();
    let ghost config = r.spec_config();
    let ghost depth = r.spec_depth();
    let ghost p0 = r.spec_pos();
    let mut out: Vec<T> = Vec::new();
    assert(spec_prepend(out@.map_values(|x: T| x@), spec_items_from(c, p0, spec_decode_item::<T>(config, depth)))
        =~= spec_items_from(c, p0, spec_decode_item::<T>(config, depth)));
    while !r.is_empty()
        invariant
            r.same_source(*old(r)),
            c == old(r).spec_input(),
            config == old(r).spec_config(),
            depth == old(r).spec_depth(),
            p0 == old(r).spec_pos(),
            r.spec_input() == c,
            r.spec_config() == config,
            r.spec_depth() == depth,
            spec_prepend(out@.map_values(|x: T| x@), spec_items_from(c, r.spec_pos(), spec_decode_item::<T>(config, depth)))
                == spec_items_from(c, p0, spec_decode_item::<T>(config, depth)),
        decreases r.spec_input().len() - r.spec_pos(),
    {
        let ghost p = r.spec_pos();
        let ghost before = out@.map_values(|x: T| x@);
        let v = T::decode(r)?;
        proof { lemma_items_step::<T::V, Error>(c, p, spec_decode_item::<T>(config, depth), before, v@, r.spec_pos()); }
        out.push(v);
        assert(out@.map_values(|x: T| x@) =~= before.push(v@));
    }
    let ghost fin = out@.map_values(|x: T| x@);
    assert(fin + Seq::<T::V>::empty() =~= fin);
    Ok(out)
}

} // verus!
