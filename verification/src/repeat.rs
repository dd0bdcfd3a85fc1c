use crate::error::Error;
use crate::wire::{has_at, lemma_has_at_index, lemma_has_at_split};
use vstd::prelude::*;

verus! {

/// The views of the elements of `s`, in order.
pub open spec fn views<T: View>(s: Seq<T>) -> Seq<T::V> {
    s.map_values(|x: T| x@)
}

/// Pushing an element pushes its view.
pub proof fn lemma_views_push<T: View>(s: Seq<T>, x: T)
    ensures
        views(s.push(x)) == views(s).push(x@),
{
    assert(views(s.push(x)) =~= views(s).push(x@));
}

/// Nothing has no views.
pub proof fn lemma_views_empty<T: View>(s: Seq<T>)
    requires
        s.len() == 0,
    ensures
        views(s) == Seq::<T::V>::empty(),
{
    assert(views(s) =~= Seq::<T::V>::empty());
}

/// The outcome `r` of reading the rest of a list, with the items `acc` that
/// were read before it put in front.
pub open spec fn with_prefix<T>(acc: Seq<T>, r: Result<(Seq<T>, int), Error>) -> Result<
    (Seq<T>, int),
    Error,
> {
    match r {
        Ok((vs, q)) => Ok((acc + vs, q)),
        Err(e) => Err(e),
    }
}

/// Putting `acc` and then `v` in front is putting `acc.push(v)` in front.
pub proof fn lemma_with_prefix_push<T>(acc: Seq<T>, v: T, r: Result<(Seq<T>, int), Error>)
    ensures
        with_prefix(acc, with_prefix(seq![v], r)) == with_prefix(acc.push(v), r),
{
    match r {
        Ok((vs, q)) => {
            assert(acc + (seq![v] + vs) =~= acc.push(v) + vs);
        },
        Err(_) => {},
    }
}

/// Nothing more to read: the outcome is what was read before.
pub proof fn lemma_with_prefix_done<T>(acc: Seq<T>, q: int)
    ensures
        with_prefix(acc, Ok::<(Seq<T>, int), Error>((Seq::<T>::empty(), q))) == Ok::<
            (Seq<T>, int),
            Error,
        >((acc, q)),
        with_prefix(Seq::<T>::empty(), Ok::<(Seq<T>, int), Error>((acc, q))) == Ok::<
            (Seq<T>, int),
            Error,
        >((acc, q)),
{
    assert(acc + Seq::<T>::empty() =~= acc);
    assert(Seq::<T>::empty() + acc =~= acc);
}

/// Reading `n` items one after the other from `s` at `pos`, each with `item`.
/// The first item that fails gives the error.
pub open spec fn parse_n<T>(
    item: spec_fn(Seq<u8>, int) -> Result<(T, int), Error>,
    s: Seq<u8>,
    pos: int,
    n: nat,
) -> Result<(Seq<T>, int), Error>
    decreases n,
{
    if n == 0 {
        Ok((Seq::empty(), pos))
    } else {
        match item(s, pos) {
            Err(e) => Err(e),
            Ok((v, q)) => with_prefix(seq![v], parse_n(item, s, q, (n - 1) as nat)),
        }
    }
}

/// Reading items from `s` at `pos`, each with `item`, until a zero byte
/// stands where the next item would start; the zero byte is consumed. An item
/// is at least one byte long and ends inside `s`.
pub open spec fn parse_until_zero<T>(
    item: spec_fn(Seq<u8>, int) -> Result<(T, int), Error>,
    s: Seq<u8>,
    pos: int,
) -> Result<(Seq<T>, int), Error>
    decreases s.len() - pos,
{
    if pos < 0 || pos >= s.len() {
        Err(Error::Truncated)
    } else if s[pos] == 0 {
        Ok((Seq::empty(), pos + 1))
    } else {
        match item(s, pos) {
            Err(e) => Err(e),
            Ok((v, q)) => if q <= pos || q > s.len() {
                Err(Error::Truncated)
            } else {
                with_prefix(seq![v], parse_until_zero(item, s, q))
            },
        }
    }
}

/// The encodings `enc` one after the other.
pub open spec fn concat(enc: Seq<Seq<u8>>) -> Seq<u8> {
    enc.flatten()
}

/// Appending one more encoding.
pub proof fn lemma_concat_push(enc: Seq<Seq<u8>>, e: Seq<u8>)
    ensures
        concat(enc.push(e)) == concat(enc) + e,
        concat(Seq::<Seq<u8>>::empty()) == Seq::<u8>::empty(),
{
    enc.lemma_flatten_push(e);
    assert(concat(Seq::<Seq<u8>>::empty()) =~= Seq::<u8>::empty());
}

/// The first encoding, then the others.
pub proof fn lemma_concat_first(enc: Seq<Seq<u8>>)
    requires
        enc.len() > 0,
    ensures
        concat(enc) == enc[0] + concat(enc.drop_first()),
{
}

/// The first `k + 1` encodings are the first `k` and then one more.
pub proof fn lemma_concat_take(enc: Seq<Seq<u8>>, k: int)
    requires
        0 <= k <= enc.len(),
    ensures
        k < enc.len() ==> concat(enc.take(k + 1)) == concat(enc.take(k)) + enc[k],
        k == 0 ==> concat(enc.take(k)) == Seq::<u8>::empty(),
        k == enc.len() ==> enc.take(k) == enc,
{
    if k < enc.len() {
        assert(enc.take(k + 1) =~= enc.take(k).push(enc[k]));
        lemma_concat_push(enc.take(k), enc[k]);
    }
    if k == 0 {
        assert(enc.take(k) =~= Seq::<Seq<u8>>::empty());
        lemma_concat_push(enc, Seq::empty());
    }
    if k == enc.len() {
        assert(enc.take(k) =~= enc);
    }
}

/// The sum of the numbers `ns`.
pub open spec fn total(ns: Seq<nat>) -> nat
    decreases ns.len(),
{
    if ns.len() == 0 {
        0
    } else {
        total(ns.drop_last()) + ns.last()
    }
}

/// Adding one more number.
pub proof fn lemma_total_push(ns: Seq<nat>, n: nat)
    ensures
        total(ns.push(n)) == total(ns) + n,
        total(Seq::<nat>::empty()) == 0,
{
    assert(ns.push(n).drop_last() =~= ns);
}

/// A sum of the first `k` numbers is at most the whole sum.
pub proof fn lemma_total_take(ns: Seq<nat>, k: int)
    requires
        0 <= k <= ns.len(),
    ensures
        total(ns.take(k)) <= total(ns),
        k < ns.len() ==> total(ns.take(k)) + ns[k] <= total(ns),
        k < ns.len() ==> total(ns.take(k + 1)) == total(ns.take(k)) + ns[k],
        k == 0 ==> total(ns.take(k)) == 0,
        k == ns.len() ==> ns.take(k) == ns,
    decreases ns.len() - k,
{
    if k == 0 {
        assert(ns.take(k) =~= Seq::<nat>::empty());
    }
    if k == ns.len() {
        assert(ns.take(k) =~= ns);
    } else {
        assert(ns.take(k + 1) =~= ns.take(k).push(ns[k]));
        lemma_total_push(ns.take(k), ns[k]);
        lemma_total_take(ns, k + 1);
    }
}

/// The length of encodings put one after the other is the sum of their
/// lengths.
pub proof fn lemma_concat_len(enc: Seq<Seq<u8>>)
    ensures
        concat(enc).len() == total(enc.map_values(|e: Seq<u8>| e.len())),
    decreases enc.len(),
{
    let lens = enc.map_values(|e: Seq<u8>| e.len());
    if enc.len() == 0 {
        lemma_concat_push(enc, Seq::empty());
        assert(enc =~= Seq::<Seq<u8>>::empty());
    } else {
        lemma_concat_len(enc.drop_last());
        assert(enc =~= enc.drop_last().push(enc.last()));
        lemma_concat_push(enc.drop_last(), enc.last());
        assert(lens.drop_last() =~= enc.drop_last().map_values(|e: Seq<u8>| e.len()));
    }
}

/// Encodings that are all `w` bytes long take `w` bytes each.
pub proof fn lemma_concat_uniform(enc: Seq<Seq<u8>>, w: int)
    requires
        0 <= w,
        forall|i: int| 0 <= i < enc.len() ==> (#[trigger] enc[i]).len() == w,
    ensures
        concat(enc).len() == enc.len() * w,
    decreases enc.len(),
{
    if enc.len() == 0 {
        assert(enc =~= Seq::<Seq<u8>>::empty());
        lemma_concat_push(enc, Seq::empty());
    } else {
        let front = enc.drop_last();
        assert(enc =~= front.push(enc.last()));
        lemma_concat_push(front, enc.last());
        lemma_concat_uniform(front, w);
        assert((enc.len() - 1) * w + w == enc.len() * w) by (nonlinear_arith);
    }
}

/// Where encodings that are all `w` bytes long stand one after the other,
/// the `i`-th stands `i * w` bytes behind the first.
pub proof fn lemma_concat_nth(enc: Seq<Seq<u8>>, w: int, s: Seq<u8>, pos: int, i: int)
    requires
        0 <= w,
        forall|k: int| 0 <= k < enc.len() ==> (#[trigger] enc[k]).len() == w,
        has_at(s, pos, concat(enc)),
        0 <= i < enc.len(),
    ensures
        has_at(s, pos + i * w, enc[i]),
    decreases i,
{
    lemma_concat_first(enc);
    lemma_has_at_split(s, pos, enc[0], concat(enc.drop_first()));
    if i > 0 {
        let rest = enc.drop_first();
        assert forall|k: int| 0 <= k < rest.len() implies (#[trigger] rest[k]).len() == w by {
            assert(rest[k] == enc[k + 1]);
        }
        lemma_concat_nth(rest, w, s, pos + w, i - 1);
        assert(rest[i - 1] == enc[i]);
        assert(pos + w + (i - 1) * w == pos + i * w) by (nonlinear_arith);
    } else {
        assert(pos + 0 * w == pos) by (nonlinear_arith);
    }
}

/// Reading back a list of known length: if the encodings `enc` of the items
/// `vs` stand one after the other in `s` at `pos`, and `item` reads each
/// encoding back as its item wherever it stands in `s`, then reading
/// `vs.len()` items at `pos` gives `vs` and stops behind the last encoding.
pub proof fn lemma_parse_n_round_trip<T>(
    item: spec_fn(Seq<u8>, int) -> Result<(T, int), Error>,
    vs: Seq<T>,
    enc: Seq<Seq<u8>>,
    s: Seq<u8>,
    pos: int,
)
    requires
        enc.len() == vs.len(),
        has_at(s, pos, concat(enc)),
        forall|i: int, p: int|
            0 <= i < vs.len() && #[trigger] has_at(s, p, enc[i]) ==> item(s, p) == Ok::<
                (T, int),
                Error,
            >((vs[i], p + enc[i].len())),
    ensures
        parse_n(item, s, pos, vs.len()) == Ok::<(Seq<T>, int), Error>(
            (vs, pos + concat(enc).len()),
        ),
    decreases vs.len(),
{
    if vs.len() == 0 {
        assert(vs =~= Seq::<T>::empty());
        assert(enc =~= Seq::<Seq<u8>>::empty());
        lemma_concat_push(enc, Seq::empty());
    } else {
        lemma_concat_first(enc);
        lemma_has_at_split(s, pos, enc[0], concat(enc.drop_first()));
        assert(has_at(s, pos, enc[0]));
        let q = pos + enc[0].len();
        let vs1 = vs.drop_first();
        let enc1 = enc.drop_first();
        assert forall|i: int, p: int|
            0 <= i < vs1.len() && #[trigger] has_at(s, p, enc1[i]) implies item(s, p) == Ok::<
                (T, int),
                Error,
            >((vs1[i], p + enc1[i].len())) by {
            assert(enc1[i] == enc[i + 1]);
            assert(has_at(s, p, enc[i + 1]));
        }
        lemma_parse_n_round_trip(item, vs1, enc1, s, q);
        assert(seq![vs[0]] + vs1 =~= vs);
        assert(parse_n(item, s, q, (vs.len() - 1) as nat) == Ok::<(Seq<T>, int), Error>(
            (vs1, q + concat(enc1).len()),
        ));
    }
}

/// Reading back a list that ends with a zero byte: if the encodings `enc` of
/// the items `vs`, none of them empty or starting with a zero byte, stand one
/// after the other in `s` at `pos` with a zero byte behind them, and `item`
/// reads each encoding back as its item wherever it stands in `s`, then
/// reading at `pos` gives `vs` and stops behind the zero byte.
pub proof fn lemma_until_zero_round_trip<T>(
    item: spec_fn(Seq<u8>, int) -> Result<(T, int), Error>,
    vs: Seq<T>,
    enc: Seq<Seq<u8>>,
    s: Seq<u8>,
    pos: int,
)
    requires
        enc.len() == vs.len(),
        has_at(s, pos, concat(enc) + seq![0u8]),
        forall|i: int| 0 <= i < enc.len() ==> (#[trigger] enc[i]).len() > 0 && enc[i][0] != 0,
        forall|i: int, p: int|
            0 <= i < vs.len() && #[trigger] has_at(s, p, enc[i]) ==> item(s, p) == Ok::<
                (T, int),
                Error,
            >((vs[i], p + enc[i].len())),
    ensures
        parse_until_zero(item, s, pos) == Ok::<(Seq<T>, int), Error>(
            (vs, pos + concat(enc).len() + 1),
        ),
    decreases vs.len(),
{
    if vs.len() == 0 {
        assert(vs =~= Seq::<T>::empty());
        assert(enc =~= Seq::<Seq<u8>>::empty());
        lemma_concat_push(enc, Seq::empty());
        lemma_has_at_index(s, pos, concat(enc) + seq![0u8], 0);
    } else {
        lemma_concat_first(enc);
        let rest = concat(enc.drop_first());
        assert(concat(enc) + seq![0u8] =~= enc[0] + (rest + seq![0u8]));
        lemma_has_at_split(s, pos, enc[0], rest + seq![0u8]);
        lemma_has_at_index(s, pos, enc[0], 0);
        assert(has_at(s, pos, enc[0]));
        let q = pos + enc[0].len();
        let vs1 = vs.drop_first();
        let enc1 = enc.drop_first();
        assert forall|i: int| 0 <= i < enc1.len() implies (#[trigger] enc1[i]).len() > 0
            && enc1[i][0] != 0 by {
            assert(enc1[i] == enc[i + 1]);
        }
        assert forall|i: int, p: int|
            0 <= i < vs1.len() && #[trigger] has_at(s, p, enc1[i]) implies item(s, p) == Ok::<
                (T, int),
                Error,
            >((vs1[i], p + enc1[i].len())) by {
            assert(enc1[i] == enc[i + 1]);
            assert(has_at(s, p, enc[i + 1]));
        }
        lemma_until_zero_round_trip(item, vs1, enc1, s, q);
        assert(seq![vs[0]] + vs1 =~= vs);
    }
}

/// Every item that `parse_until_zero` reads from `s` at `pos` on stands at
/// a place that is `good`.
pub open spec fn all_until_zero<T>(
    item: spec_fn(Seq<u8>, int) -> Result<(T, int), Error>,
    good: spec_fn(Seq<u8>, int) -> bool,
    s: Seq<u8>,
    pos: int,
) -> bool
    decreases s.len() - pos,
{
    if pos < 0 || pos >= s.len() {
        false
    } else if s[pos] == 0 {
        true
    } else {
        match item(s, pos) {
            Err(_) => false,
            Ok((_, q)) => if q <= pos || q > s.len() {
                false
            } else {
                good(s, pos) && all_until_zero(item, good, s, q)
            },
        }
    }
}

/// Every one of the `n` items that `parse_n` reads from `s` at `pos` on
/// stands at a place that is `good`.
pub open spec fn all_n<T>(
    item: spec_fn(Seq<u8>, int) -> Result<(T, int), Error>,
    good: spec_fn(Seq<u8>, int) -> bool,
    s: Seq<u8>,
    pos: int,
    n: nat,
) -> bool
    decreases n,
{
    if n == 0 {
        true
    } else {
        match item(s, pos) {
            Err(_) => false,
            Ok((_, q)) => good(s, pos) && all_n(item, good, s, q, (n - 1) as nat),
        }
    }
}

/// The wire forms of the items `vs`, each made by `enc`, each on its own.
pub open spec fn encs_of<T>(enc: spec_fn(T) -> Seq<u8>, vs: Seq<T>) -> Seq<Seq<u8>> {
    Seq::new(vs.len(), |i: int| enc(vs[i]))
}

/// Two stretches of `s` that touch are one stretch.
pub proof fn lemma_subrange_join(s: Seq<u8>, a: int, b: int, c: int)
    requires
        0 <= a <= b <= c <= s.len(),
    ensures
        s.subrange(a, b) + s.subrange(b, c) == s.subrange(a, c),
{
    assert(s.subrange(a, b) + s.subrange(b, c) =~= s.subrange(a, c));
}

/// Where every item of a list that ends with a zero byte stands at a good
/// place, and what stands at a good place is the wire form of the item
/// read there, what was read is the wire forms of the items and the zero
/// byte.
pub proof fn lemma_until_zero_exact<T>(
    item: spec_fn(Seq<u8>, int) -> Result<(T, int), Error>,
    good: spec_fn(Seq<u8>, int) -> bool,
    enc: spec_fn(T) -> Seq<u8>,
    s: Seq<u8>,
    pos: int,
    vs: Seq<T>,
    q: int,
)
    requires
        all_until_zero(item, good, s, pos),
        parse_until_zero(item, s, pos) == Ok::<(Seq<T>, int), Error>((vs, q)),
        forall|p: int| #[trigger]
            good(s, p) ==> (item(s, p) matches Ok((v, r)) && 0 <= p <= r <= s.len()
                && s.subrange(p, r) == enc(v)),
    ensures
        0 <= pos < q <= s.len(),
        s.subrange(pos, q) == concat(encs_of(enc, vs)) + seq![0u8],
    decreases s.len() - pos,
{
    if s[pos] == 0 {
        assert(encs_of(enc, vs) =~= Seq::<Seq<u8>>::empty());
        lemma_concat_push(encs_of(enc, vs), Seq::empty());
        assert(s.subrange(pos, q) =~= Seq::<u8>::empty() + seq![0u8]);
    } else {
        let (v, r) = item(s, pos).unwrap();
        let (rest, t) = parse_until_zero(item, s, r).unwrap();
        assert(good(s, pos));
        lemma_until_zero_exact(item, good, enc, s, r, rest, t);
        assert(vs =~= seq![v] + rest);
        let e = encs_of(enc, vs);
        lemma_concat_first(e);
        assert(e.drop_first() =~= encs_of(enc, rest));
        lemma_subrange_join(s, pos, r, q);
        assert(s.subrange(pos, q) =~= enc(v) + (concat(encs_of(enc, rest)) + seq![0u8]));
        assert(s.subrange(pos, q) =~= concat(e) + seq![0u8]);
    }
}

/// Where every item of a list of known length stands at a good place, and
/// what stands at a good place is the wire form of the item read there,
/// what was read is the wire forms of the items.
pub proof fn lemma_n_exact<T>(
    item: spec_fn(Seq<u8>, int) -> Result<(T, int), Error>,
    good: spec_fn(Seq<u8>, int) -> bool,
    enc: spec_fn(T) -> Seq<u8>,
    s: Seq<u8>,
    pos: int,
    n: nat,
    vs: Seq<T>,
    q: int,
)
    requires
        0 <= pos <= s.len(),
        all_n(item, good, s, pos, n),
        parse_n(item, s, pos, n) == Ok::<(Seq<T>, int), Error>((vs, q)),
        forall|p: int| #[trigger]
            good(s, p) ==> (item(s, p) matches Ok((v, r)) && 0 <= p <= r <= s.len()
                && s.subrange(p, r) == enc(v)),
    ensures
        pos <= q <= s.len(),
        s.subrange(pos, q) == concat(encs_of(enc, vs)),
    decreases n,
{
    if n == 0 {
        assert(encs_of(enc, vs) =~= Seq::<Seq<u8>>::empty());
        lemma_concat_push(encs_of(enc, vs), Seq::empty());
        assert(s.subrange(pos, q) =~= Seq::<u8>::empty());
    } else {
        let (v, r) = item(s, pos).unwrap();
        let (rest, t) = parse_n(item, s, r, (n - 1) as nat).unwrap();
        assert(good(s, pos));
        lemma_n_exact(item, good, enc, s, r, (n - 1) as nat, rest, t);
        assert(vs =~= seq![v] + rest);
        let e = encs_of(enc, vs);
        lemma_concat_first(e);
        assert(e.drop_first() =~= encs_of(enc, rest));
        lemma_subrange_join(s, pos, r, q);
    }
}

/// Where the encodings `enc` of the items `vs`, none of them empty or
/// starting with a zero byte, stand one after the other in `s` at `pos`
/// with a zero byte behind them, `item` reads each encoding back as its
/// item, and every place where one of them stands is `good`, every item
/// that is read from `pos` on stands at a good place.
pub proof fn lemma_until_zero_all<T>(
    item: spec_fn(Seq<u8>, int) -> Result<(T, int), Error>,
    good: spec_fn(Seq<u8>, int) -> bool,
    vs: Seq<T>,
    enc: Seq<Seq<u8>>,
    s: Seq<u8>,
    pos: int,
)
    requires
        enc.len() == vs.len(),
        has_at(s, pos, concat(enc) + seq![0u8]),
        forall|i: int| 0 <= i < enc.len() ==> (#[trigger] enc[i]).len() > 0 && enc[i][0] != 0,
        forall|i: int, p: int|
            0 <= i < vs.len() && #[trigger] has_at(s, p, enc[i]) ==> item(s, p) == Ok::<
                (T, int),
                Error,
            >((vs[i], p + enc[i].len())) && good(s, p),
    ensures
        all_until_zero(item, good, s, pos),
    decreases vs.len(),
{
    if vs.len() == 0 {
        assert(enc =~= Seq::<Seq<u8>>::empty());
        lemma_concat_push(enc, Seq::empty());
        lemma_has_at_index(s, pos, concat(enc) + seq![0u8], 0);
    } else {
        lemma_concat_first(enc);
        let rest = concat(enc.drop_first());
        assert(concat(enc) + seq![0u8] =~= enc[0] + (rest + seq![0u8]));
        lemma_has_at_split(s, pos, enc[0], rest + seq![0u8]);
        lemma_has_at_index(s, pos, enc[0], 0);
        assert(has_at(s, pos, enc[0]));
        let q = pos + enc[0].len();
        let vs1 = vs.drop_first();
        let enc1 = enc.drop_first();
        assert forall|i: int| 0 <= i < enc1.len() implies (#[trigger] enc1[i]).len() > 0
            && enc1[i][0] != 0 by {
            assert(enc1[i] == enc[i + 1]);
        }
        assert forall|i: int, p: int|
            0 <= i < vs1.len() && #[trigger] has_at(s, p, enc1[i]) implies item(s, p) == Ok::<
                (T, int),
                Error,
            >((vs1[i], p + enc1[i].len())) && good(s, p) by {
            assert(enc1[i] == enc[i + 1]);
            assert(has_at(s, p, enc[i + 1]));
        }
        lemma_until_zero_all(item, good, vs1, enc1, s, q);
    }
}

/// The first error among the outcomes `rs`, or `Ok` where there is none.
pub open spec fn first_error(rs: Seq<Result<(), Error>>) -> Result<(), Error>
    decreases rs.len(),
{
    if rs.len() == 0 {
        Ok(())
    } else {
        match rs[0] {
            Err(e) => Err(e),
            Ok(_) => first_error(rs.drop_first()),
        }
    }
}

/// The first error is the first outcome that is no `Ok`; there is none
/// exactly where every outcome is `Ok`.
pub proof fn lemma_first_error(rs: Seq<Result<(), Error>>, i: int)
    requires
        0 <= i <= rs.len(),
        forall|k: int| 0 <= k < i ==> (#[trigger] rs[k]) is Ok,
    ensures
        i < rs.len() && rs[i] is Err ==> first_error(rs) == rs[i],
        i == rs.len() ==> first_error(rs) == Ok::<(), Error>(()),
        first_error(rs) is Ok ==> forall|k: int| 0 <= k < rs.len() ==> (#[trigger] rs[k]) is Ok,
    decreases rs.len(),
{
    if rs.len() > 0 {
        let rest = rs.drop_first();
        if i > 0 {
            assert(rs[0] is Ok);
            assert forall|k: int| 0 <= k < i - 1 implies (#[trigger] rest[k]) is Ok by {
                assert(rest[k] == rs[k + 1]);
            }
            lemma_first_error(rest, i - 1);
        } else {
            lemma_first_error(rest, 0);
        }
        if first_error(rs) is Ok {
            assert forall|k: int| 0 <= k < rs.len() implies (#[trigger] rs[k]) is Ok by {
                if k > 0 {
                    assert(rest[k - 1] == rs[k]);
                }
            }
        }
    }
}

} // verus!
