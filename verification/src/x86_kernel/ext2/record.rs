//! Little-endian records, the shape of every ext2 structure on disk: a record
//! is a run of unsigned fields laid end to end without padding, each `w`
//! bytes wide and stored least significant byte first.
use vstd::prelude::*;

verus! {

/// 256 to the power `n`.
pub open spec fn pow256(n: nat) -> nat
    decreases n,
{
    if n == 0 {
        1
    } else {
        256 * pow256((n - 1) as nat)
    }
}

/// The value of the bytes `s`, least significant first.
pub open spec fn le_value(s: Seq<u8>) -> nat
    decreases s.len(),
{
    if s.len() == 0 {
        0
    } else {
        s[0] as nat + 256 * le_value(s.drop_first())
    }
}

/// The `w` low bytes of `v`, least significant first.
pub open spec fn le_encode(v: nat, w: nat) -> Seq<u8>
    decreases w,
{
    if w == 0 {
        Seq::empty()
    } else {
        seq![(v % 256) as u8] + le_encode(v / 256, (w - 1) as nat)
    }
}

/// The size in bytes of a record whose fields have the widths `ws`.
pub open spec fn record_size(ws: Seq<nat>) -> nat
    decreases ws.len(),
{
    if ws.len() == 0 {
        0
    } else {
        record_size(ws.drop_last()) + ws.last()
    }
}

/// The offset of field `i` in the record.
pub open spec fn field_offset(ws: Seq<nat>, i: int) -> nat {
    record_size(ws.take(i))
}

/// The values of the fields of the record `b`.
pub open spec fn decode_record(b: Seq<u8>, ws: Seq<nat>) -> Seq<nat> {
    Seq::new(
        ws.len(),
        |i: int| le_value(b.subrange(field_offset(ws, i) as int, (field_offset(ws, i) + ws[i]) as int)),
    )
}

/// The bytes of the record whose fields hold `vs`.
pub open spec fn encode_record(vs: Seq<nat>, ws: Seq<nat>) -> Seq<u8>
    decreases ws.len(),
{
    if ws.len() == 0 {
        Seq::empty()
    } else {
        encode_record(vs.drop_last(), ws.drop_last()) + le_encode(vs.last(), ws.last())
    }
}

/// One value per field, each small enough for its field.
pub open spec fn fits(vs: Seq<nat>, ws: Seq<nat>) -> bool {
    vs.len() == ws.len() && forall|i: int| 0 <= i < ws.len() ==> #[trigger] vs[i] < pow256(ws[i])
}

/// The widths `ws` as numbers.
pub open spec fn widths(ws: Seq<u8>) -> Seq<nat> {
    ws.map_values(|w: u8| w as nat)
}

/// The values `vs` as numbers.
pub open spec fn naturals(vs: Seq<u64>) -> Seq<nat> {
    vs.map_values(|v: u64| v as nat)
}

pub proof fn lemma_pow256_values()
    ensures
        pow256(1) == 0x100,
        pow256(2) == 0x1_0000,
        pow256(4) == 0x1_0000_0000,
        pow256(7) == 0x100_0000_0000_0000,
        pow256(8) == 0x1_0000_0000_0000_0000,
{
    reveal_with_fuel(pow256, 9);
}

pub proof fn lemma_pow256_monotonic(a: nat, b: nat)
    requires
        a <= b,
    ensures
        pow256(a) <= pow256(b),
        pow256(a) > 0,
    decreases b,
{
    if b > 0 && a < b {
        lemma_pow256_monotonic(a, (b - 1) as nat);
    }
    if a > 0 {
        lemma_pow256_monotonic((a - 1) as nat, (a - 1) as nat);
    }
}

pub proof fn lemma_le_value_bound(s: Seq<u8>)
    ensures
        le_value(s) < pow256(s.len()),
    decreases s.len(),
{
    if s.len() > 0 {
        lemma_le_value_bound(s.drop_first());
    }
}

pub proof fn lemma_le_encode_len(v: nat, w: nat)
    ensures
        le_encode(v, w).len() == w,
    decreases w,
{
    if w > 0 {
        lemma_le_encode_len(v / 256, (w - 1) as nat);
    }
}

/// The `w` bytes of a value below `256^w` read back as it.
pub proof fn lemma_le_value_of_encode(v: nat, w: nat)
    requires
        v < pow256(w),
    ensures
        le_value(le_encode(v, w)) == v,
    decreases w,
{
    if w > 0 {
        let e = le_encode(v, w);
        let rest = le_encode(v / 256, (w - 1) as nat);
        assert(v / 256 < pow256((w - 1) as nat)) by (nonlinear_arith)
            requires
                v < 256 * pow256((w - 1) as nat),
        ;
        lemma_le_value_of_encode(v / 256, (w - 1) as nat);
        assert(e.drop_first() =~= rest);
        assert(v % 256 + 256 * (v / 256) == v) by (nonlinear_arith);
    }
}

/// Bytes read as a value and written back are the same bytes.
pub proof fn lemma_le_encode_of_value(s: Seq<u8>)
    ensures
        le_encode(le_value(s), s.len()) == s,
    decreases s.len(),
{
    if s.len() > 0 {
        let v = le_value(s);
        let t = s.drop_first();
        let l = le_value(t);
        lemma_le_encode_of_value(t);
        assert(v == s[0] as nat + 256 * l);
        assert((s[0] as nat + 256 * l) % 256 == s[0] as nat) by (nonlinear_arith)
            requires
                s[0] < 256,
        ;
        assert((s[0] as nat + 256 * l) / 256 == l) by (nonlinear_arith)
            requires
                s[0] < 256,
        ;
        assert(le_encode(v, s.len()) =~= s);
    }
}

pub proof fn lemma_field_offset_next(ws: Seq<nat>, i: int)
    requires
        0 <= i < ws.len(),
    ensures
        field_offset(ws, i + 1) == (field_offset(ws, i) + ws[i]) as int,
        field_offset(ws, 0) == 0,
{
    assert(ws.take(i + 1).drop_last() =~= ws.take(i));
    assert(ws.take(0) =~= Seq::<nat>::empty());
}

pub proof fn lemma_field_offset_bound(ws: Seq<nat>, i: int)
    requires
        0 <= i <= ws.len(),
    ensures
        field_offset(ws, i) <= record_size(ws),
    decreases ws.len() - i,
{
    if i < ws.len() {
        lemma_field_offset_next(ws, i);
        lemma_field_offset_bound(ws, i + 1);
    } else {
        assert(ws.take(i) =~= ws);
    }
}

pub proof fn lemma_encode_record_len(vs: Seq<nat>, ws: Seq<nat>)
    requires
        vs.len() == ws.len(),
    ensures
        encode_record(vs, ws).len() == record_size(ws),
    decreases ws.len(),
{
    if ws.len() > 0 {
        lemma_encode_record_len(vs.drop_last(), ws.drop_last());
        lemma_le_encode_len(vs.last(), ws.last());
    }
}

/// A record decodes to the values it was encoded from.
pub proof fn lemma_decode_encode_record(vs: Seq<nat>, ws: Seq<nat>)
    requires
        fits(vs, ws),
    ensures
        decode_record(encode_record(vs, ws), ws) == vs,
        encode_record(vs, ws).len() == record_size(ws),
    decreases ws.len(),
{
    lemma_encode_record_len(vs, ws);
    if ws.len() > 0 {
        let n = ws.len() - 1;
        let vs0 = vs.drop_last();
        let ws0 = ws.drop_last();
        let p = encode_record(vs0, ws0);
        let e = encode_record(vs, ws);
        assert(fits(vs0, ws0)) by {
            assert forall|i: int| 0 <= i < ws0.len() implies #[trigger] vs0[i] < pow256(ws0[i]) by {
                assert(vs[i] < pow256(ws[i]));
            }
        }
        lemma_decode_encode_record(vs0, ws0);
        lemma_encode_record_len(vs0, ws0);
        let d = decode_record(e, ws);
        assert forall|i: int| 0 <= i < ws.len() implies #[trigger] d[i] == vs[i] by {
            lemma_field_offset_bound(ws, i);
            lemma_field_offset_next(ws, i);
            lemma_field_offset_bound(ws, i + 1);
            if i < n {
                assert(ws0.take(i) =~= ws.take(i));
                lemma_field_offset_next(ws0, i);
                lemma_field_offset_bound(ws0, i + 1);
                assert(e.subrange(field_offset(ws, i) as int, (field_offset(ws, i) + ws[i]) as int) =~= p.subrange(
                    field_offset(ws0, i) as int,
                    (field_offset(ws0, i) + ws0[i]) as int,
                ));
                assert(decode_record(p, ws0)[i] == vs0[i]);
            } else {
                assert(ws.take(n) =~= ws0);
                lemma_le_encode_len(vs.last(), ws.last());
                assert(e.subrange(field_offset(ws, i) as int, (field_offset(ws, i) + ws[i]) as int) =~= le_encode(
                    vs.last(),
                    ws.last(),
                ));
                lemma_le_value_of_encode(vs.last(), ws.last());
            }
        }
        assert(d =~= vs);
    }
}

/// The fields of a record, encoded again, give back its bytes.
pub proof fn lemma_encode_decode_record(b: Seq<u8>, ws: Seq<nat>)
    requires
        b.len() == record_size(ws),
    ensures
        encode_record(decode_record(b, ws), ws) == b,
    decreases ws.len(),
{
    if ws.len() > 0 {
        let n = ws.len() - 1;
        let ws0 = ws.drop_last();
        let b0 = b.subrange(0, record_size(ws0) as int);
        let d = decode_record(b, ws);
        let d0 = decode_record(b0, ws0);
        assert(d.drop_last() =~= d0) by {
            assert forall|i: int| 0 <= i < ws0.len() implies #[trigger] d.drop_last()[i] == d0[i] by {
                assert(ws0.take(i) =~= ws.take(i));
                lemma_field_offset_next(ws0, i);
                lemma_field_offset_bound(ws0, i + 1);
                assert(b.subrange(field_offset(ws, i) as int, (field_offset(ws, i) + ws[i]) as int) =~= b0.subrange(
                    field_offset(ws0, i) as int,
                    (field_offset(ws0, i) + ws0[i]) as int,
                ));
            }
        }
        lemma_encode_decode_record(b0, ws0);
        assert(ws.take(n) =~= ws0);
        let last = b.subrange(record_size(ws0) as int, b.len() as int);
        assert(d.last() == le_value(last));
        lemma_le_encode_of_value(last);
        assert(b =~= b0 + last);
    }
}

/// The value of the `w` bytes of `b` from `off` on.
pub fn read_le(b: &[u8], off: usize, w: usize) -> (r: u64)
    requires
        off + w <= b@.len(),
        w <= 8,
    ensures
        r == le_value(b@.subrange(off as int, off + w)),
    decreases w,
{
    if w == 0 {
        return 0;
    }
    let _len = b.len();
    let rest = read_le(b, off + 1, w - 1);
    proof {
        lemma_le_value_bound(b@.subrange(off + 1, off + w));
        lemma_pow256_monotonic((w - 1) as nat, 7);
        lemma_pow256_values();
        assert(b@.subrange(off as int, off + w).drop_first() =~= b@.subrange(off + 1, off + w));
    }
    b[off] as u64 + 256 * rest
}

/// Appends the `w` low bytes of `v`, least significant first.
pub fn write_le(out: &mut Vec<u8>, v: u64, w: usize)
    requires
        w <= 8,
    ensures
        final(out)@ == old(out)@ + le_encode(v as nat, w as nat),
    decreases w,
{
    if w == 0 {
        assert(out@ =~= old(out)@ + le_encode(v as nat, 0));
        return;
    }
    out.push((v % 256) as u8);
    let ghost mid = out@;
    write_le(out, v / 256, w - 1);
    assert(out@ =~= old(out)@ + le_encode(v as nat, w as nat));
}

/// The fields of the record `b`, whose fields have the widths `ws`.
pub fn decode_record_exec(b: &[u8], ws: &[u8]) -> (r: Vec<u64>)
    requires
        b@.len() == record_size(widths(ws@)),
        forall|i: int| 0 <= i < ws@.len() ==> #[trigger] ws@[i] <= 8,
    ensures
        naturals(r@) == decode_record(b@, widths(ws@)),
{
    let ghost w = widths(ws@);
    let mut r: Vec<u64> = Vec::new();
    let mut off: usize = 0;
    let mut i: usize = 0;
    let blen = b.len();
    while i < ws.len()
        invariant
            w == widths(ws@),
            b@.len() == record_size(w),
            blen == b@.len(),
            forall|k: int| 0 <= k < ws@.len() ==> #[trigger] ws@[k] <= 8,
            i <= ws@.len(),
            off == field_offset(w, i as int),
            r@.len() == i,
            forall|k: int| 0 <= k < i ==> #[trigger] r@[k] == decode_record(b@, w)[k],
        decreases ws@.len() - i,
    {
        proof {
            lemma_field_offset_next(w, i as int);
            lemma_field_offset_bound(w, i + 1);
        }
        let v = read_le(b, off, ws[i] as usize);
        r.push(v);
        off = off + ws[i] as usize;
        i = i + 1;
    }
    assert(naturals(r@) =~= decode_record(b@, w));
    r
}

/// The record whose fields, of widths `ws`, hold `vs`.
pub fn encode_record_exec(vs: &[u64], ws: &[u8]) -> (r: Vec<u8>)
    requires
        vs@.len() == ws@.len(),
        forall|i: int| 0 <= i < ws@.len() ==> #[trigger] ws@[i] <= 8,
    ensures
        r@ == encode_record(naturals(vs@), widths(ws@)),
{
    let ghost w = widths(ws@);
    let ghost n = naturals(vs@);
    let mut r: Vec<u8> = Vec::new();
    let mut i: usize = 0;
    assert(w.take(0) =~= Seq::<nat>::empty());
    while i < ws.len()
        invariant
            w == widths(ws@),
            n == naturals(vs@),
            vs@.len() == ws@.len(),
            forall|k: int| 0 <= k < ws@.len() ==> #[trigger] ws@[k] <= 8,
            i <= ws@.len(),
            r@ == encode_record(n.take(i as int), w.take(i as int)),
        decreases ws@.len() - i,
    {
        write_le(&mut r, vs[i], ws[i] as usize);
        proof {
            assert(n.take(i + 1).drop_last() =~= n.take(i as int));
            assert(w.take(i + 1).drop_last() =~= w.take(i as int));
        }
        i = i + 1;
    }
    assert(n.take(i as int) =~= n);
    assert(w.take(i as int) =~= w);
    r
}

/// `n` copies of the width `w`.
pub open spec fn repeat(w: u8, n: nat) -> Seq<u8> {
    Seq::new(n, |_i: int| w)
}

pub proof fn lemma_record_size_append(a: Seq<nat>, b: Seq<nat>)
    ensures
        record_size(a + b) == record_size(a) + record_size(b),
    decreases b.len(),
{
    if b.len() > 0 {
        assert((a + b).drop_last() =~= a + b.drop_last());
        lemma_record_size_append(a, b.drop_last());
    } else {
        assert(a + b =~= a);
    }
}

pub proof fn lemma_record_size_repeat(w: u8, n: nat)
    ensures
        record_size(widths(repeat(w, n))) == n * w,
    decreases n,
{
    if n > 0 {
        assert(widths(repeat(w, n)).drop_last() =~= widths(repeat(w, (n - 1) as nat)));
        lemma_record_size_repeat(w, (n - 1) as nat);
        let ws = widths(repeat(w, n));
        assert(ws.last() == w as nat);
        assert(record_size(ws) == record_size(ws.drop_last()) + ws.last());
        assert(n * w == ((n - 1) as nat) * w + w) by (nonlinear_arith)
            requires
                n > 0,
        ;
        assert(record_size(ws.drop_last()) == ((n - 1) as nat) * w);
        assert(record_size(ws) == n * w);
    } else {
        assert(widths(repeat(w, n)) =~= Seq::<nat>::empty());
        assert(record_size(widths(repeat(w, n))) == 0);
    }
}

pub proof fn lemma_widths_append(a: Seq<u8>, b: Seq<u8>)
    ensures
        widths(a + b) == widths(a) + widths(b),
{
    assert(widths(a + b) =~= widths(a) + widths(b));
}

/// The fields of a record fit their widths.
pub proof fn lemma_decode_record_fits(b: Seq<u8>, ws: Seq<nat>)
    requires
        b.len() == record_size(ws),
    ensures
        fits(decode_record(b, ws), ws),
{
    let d = decode_record(b, ws);
    assert forall|i: int| 0 <= i < ws.len() implies #[trigger] d[i] < pow256(ws[i]) by {
        lemma_field_offset_next(ws, i);
        lemma_field_offset_bound(ws, i + 1);
        lemma_le_value_bound(b.subrange(field_offset(ws, i) as int, (field_offset(ws, i) + ws[i]) as int));
    }
}

/// Appends the bytes of `a`, each as a value.
pub fn push_bytes(v: &mut Vec<u64>, a: &[u8])
    ensures
        naturals(final(v)@) == naturals(old(v)@) + a@.map_values(|x: u8| x as nat),
{
    let mut k: usize = 0;
    while k < a.len()
        invariant
            k <= a@.len(),
            naturals(v@) == naturals(old(v)@) + a@.map_values(|x: u8| x as nat).take(k as int),
        decreases a@.len() - k,
    {
        let ghost pre = v@;
        v.push(a[k] as u64);
        assert(naturals(v@) =~= naturals(pre).push(a@[k as int] as nat));
        assert(a@.map_values(|x: u8| x as nat).take(k + 1) =~= a@.map_values(|x: u8| x as nat).take(
            k as int,
        ).push(a@[k as int] as nat));
        assert(naturals(v@) =~= naturals(old(v)@) + a@.map_values(|x: u8| x as nat).take(k + 1));
        k = k + 1;
    }
    assert(a@.map_values(|x: u8| x as nat).take(k as int) =~= a@.map_values(|x: u8| x as nat));
}

/// Appends the words of `a`, each as a value.
pub fn push_words(v: &mut Vec<u64>, a: &[u32])
    ensures
        naturals(final(v)@) == naturals(old(v)@) + a@.map_values(|x: u32| x as nat),
{
    let mut k: usize = 0;
    while k < a.len()
        invariant
            k <= a@.len(),
            naturals(v@) == naturals(old(v)@) + a@.map_values(|x: u32| x as nat).take(k as int),
        decreases a@.len() - k,
    {
        let ghost pre = v@;
        v.push(a[k] as u64);
        assert(naturals(v@) =~= naturals(pre).push(a@[k as int] as nat));
        assert(a@.map_values(|x: u32| x as nat).take(k + 1) =~= a@.map_values(|x: u32| x as nat).take(
            k as int,
        ).push(a@[k as int] as nat));
        assert(naturals(v@) =~= naturals(old(v)@) + a@.map_values(|x: u32| x as nat).take(k + 1));
        k = k + 1;
    }
    assert(a@.map_values(|x: u32| x as nat).take(k as int) =~= a@.map_values(|x: u32| x as nat));
}

/// The `N` values from `start` on, as bytes.
pub fn bytes_at<const N: usize>(v: &[u64], start: usize) -> (r: [u8; N])
    requires
        start + N <= v@.len(),
        forall|k: int| start <= k < start + N ==> #[trigger] v@[k] < 0x100,
    ensures
        r@.map_values(|x: u8| x as nat) == naturals(v@).subrange(start as int, start + N),
{
    let mut r: [u8; N] = vstd::array::array_fill_for_copy_types::<u8, N>(0);
    let mut k: usize = 0;
    let vlen = v.len();
    while k < N
        invariant
            vlen == v@.len(),
            start + N <= v@.len(),
            forall|j: int| start <= j < start + N ==> #[trigger] v@[j] < 0x100,
            k <= N,
            r@.len() == N,
            forall|j: int| 0 <= j < k ==> #[trigger] r@[j] as nat == v@[start + j] as nat,
        decreases N - k,
    {
        assert(v@[start + k] < 0x100);
        r[k] = v[start + k] as u8;
        k = k + 1;
    }
    assert(r@.map_values(|x: u8| x as nat) =~= naturals(v@).subrange(start as int, start + N));
    r
}

/// The `N` values from `start` on, as words.
pub fn words_at<const N: usize>(v: &[u64], start: usize) -> (r: [u32; N])
    requires
        start + N <= v@.len(),
        forall|k: int| start <= k < start + N ==> #[trigger] v@[k] < 0x1_0000_0000,
    ensures
        r@.map_values(|x: u32| x as nat) == naturals(v@).subrange(start as int, start + N),
{
    let mut r: [u32; N] = vstd::array::array_fill_for_copy_types::<u32, N>(0);
    let mut k: usize = 0;
    let vlen = v.len();
    while k < N
        invariant
            vlen == v@.len(),
            start + N <= v@.len(),
            forall|j: int| start <= j < start + N ==> #[trigger] v@[j] < 0x1_0000_0000,
            k <= N,
            r@.len() == N,
            forall|j: int| 0 <= j < k ==> #[trigger] r@[j] as nat == v@[start + j] as nat,
        decreases N - k,
    {
        assert(v@[start + k] < 0x1_0000_0000);
        r[k] = v[start + k] as u32;
        k = k + 1;
    }
    assert(r@.map_values(|x: u32| x as nat) =~= naturals(v@).subrange(start as int, start + N));
    r
}

/// Appends `n` copies of the width `w`.
pub fn push_repeat(r: &mut Vec<u8>, w: u8, n: usize)
    requires
        w <= 8,
    ensures
        final(r)@ == old(r)@ + repeat(w, n as nat),
        record_size(widths(final(r)@)) == record_size(widths(old(r)@)) + n * w,
        (forall|i: int| 0 <= i < old(r)@.len() ==> #[trigger] old(r)@[i] <= 8) ==> forall|i: int|
            0 <= i < final(r)@.len() ==> #[trigger] final(r)@[i] <= 8,
{
    let mut k: usize = 0;
    while k < n
        invariant
            k <= n,
            r@ == old(r)@ + repeat(w, k as nat),
        decreases n - k,
    {
        r.push(w);
        assert(r@ =~= old(r)@ + repeat(w, (k + 1) as nat));
        k = k + 1;
    }
    proof {
        lemma_widths_append(old(r)@, repeat(w, n as nat));
        lemma_record_size_append(widths(old(r)@), widths(repeat(w, n as nat)));
        lemma_record_size_repeat(w, n as nat);
    }
}

/// Appends the value `x`.
pub fn push_value(v: &mut Vec<u64>, x: u64)
    ensures
        naturals(final(v)@) == naturals(old(v)@).push(x as nat),
{
    v.push(x);
    assert(naturals(v@) =~= naturals(old(v)@).push(x as nat));
}

} // verus!
