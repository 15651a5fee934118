//! The persisted format: a JSON record holding the ordered topic list,
//! each topic an object with `topic_name` (a string, with `"`, `\` and
//! common control characters escaped), `last_reviewed` (an ISO-8601
//! timestamp with a UTC offset) and `next_review_gap` (one of `Day`,
//! `Week`, `Month`). These field names and tier words are the on-disk
//! contract. `Storage::save_bytes` emits the format; `load_storage`
//! parses it back, and is proved to reproduce exactly what was saved.
use crate::review_topics::{spec_views, ReviewTopic, ReviewTopicView};
use crate::text::lemma_bytes_of_string_roundtrip;
use crate::tiers::NextReviewGap;
use crate::times::Timestamp;
use vstd::prelude::*;
use vstd::utf8::encode_utf8;
use vstd::string::StringSliceAdditionalSpecFns;

verus! {

// --- The format, as functions from values to byte sequences. ---

/// `n % 10**w`, written out as `w` ASCII digits with leading zeros.
pub open spec fn fixed_digits(n: int, w: int) -> Seq<u8>
    decreases w,
{
    if w <= 0 {
        Seq::empty()
    } else {
        fixed_digits(n / 10, w - 1) + seq![(0x30 + n % 10) as u8]
    }
}

pub open spec fn pow10(w: int) -> int
    decreases w,
{
    if w <= 0 {
        1
    } else {
        10 * pow10(w - 1)
    }
}

proof fn lemma_pow10_mono(w1: int, w2: int)
    requires
        w1 <= w2,
    ensures
        0 < pow10(w1) <= pow10(w2),
    decreases w2 - w1,
{
    lemma_pow10_pos(w1);
    if w2 > 0 && w1 < w2 {
        lemma_pow10_mono(w1, w2 - 1);
    }
}

proof fn lemma_pow10_pos(w: int)
    ensures
        0 < pow10(w),
    decreases (if w > 0 { w } else { 0int }),
{
    if w > 0 {
        lemma_pow10_pos(w - 1);
    }
}

/// How one byte of a topic name is stored: quote, backslash, newline,
/// carriage return and tab are escaped; every other byte stands as
/// itself.
pub open spec fn esc1(b: u8) -> Seq<u8> {
    if b == 0x22 {
        seq![0x5Cu8, 0x22u8]
    } else if b == 0x5C {
        seq![0x5Cu8, 0x5Cu8]
    } else if b == 0x0A {
        seq![0x5Cu8, 0x6Eu8]
    } else if b == 0x0D {
        seq![0x5Cu8, 0x72u8]
    } else if b == 0x09 {
        seq![0x5Cu8, 0x74u8]
    } else {
        seq![b]
    }
}

/// A byte sequence with each byte escaped as `esc1` says.
pub open spec fn esc(s: Seq<u8>) -> Seq<u8>
    decreases s.len(),
{
    if s.len() == 0 {
        Seq::empty()
    } else {
        esc(s.drop_last()) + esc1(s.last())
    }
}

/// The stored form of a timestamp:
/// `YYYY-MM-DDTHH:MM:SS.NNNNNNNNN+HH:MM` (35 bytes; the offset sign is
/// `-` for a negative offset).
pub open spec fn spec_emit_timestamp(t: Timestamp) -> Seq<u8> {
    fixed_digits(t.date.year as int, 4) + seq![0x2Du8] + fixed_digits(t.date.month as int, 2)
        + seq![0x2Du8] + fixed_digits(t.date.day as int, 2) + seq![0x54u8] + fixed_digits(
        t.hour as int,
        2,
    ) + seq![0x3Au8] + fixed_digits(t.minute as int, 2) + seq![0x3Au8] + fixed_digits(
        t.second as int,
        2,
    ) + seq![0x2Eu8] + fixed_digits(t.nanosecond as int, 9) + seq![
        if t.offset_minutes >= 0 {
            0x2Bu8
        } else {
            0x2Du8
        },
    ] + fixed_digits(abs_offset(t.offset_minutes) / 60, 2) + seq![0x3Au8] + fixed_digits(
        abs_offset(t.offset_minutes) % 60,
        2,
    )
}

pub open spec fn abs_offset(m: i16) -> int {
    if m >= 0 {
        m as int
    } else {
        -(m as int)
    }
}

/// The stored word for a tier.
pub open spec fn spec_tier_name(g: NextReviewGap) -> Seq<char> {
    match g {
        NextReviewGap::Day => "Day"@,
        NextReviewGap::Week => "Week"@,
        NextReviewGap::Month => "Month"@,
    }
}

/// The pieces of the stored form of a topic that are the same for every
/// topic.
pub open spec fn lit_name_key() -> Seq<u8> {
    encode_utf8("{\"topic_name\":\""@)
}

pub open spec fn lit_reviewed_key() -> Seq<u8> {
    encode_utf8(",\"last_reviewed\":\""@)
}

pub open spec fn lit_gap_key() -> Seq<u8> {
    encode_utf8("\",\"next_review_gap\":\""@)
}

pub open spec fn lit_close() -> Seq<u8> {
    encode_utf8("\"}"@)
}

/// The stored form of one topic.
pub open spec fn spec_emit_topic(t: ReviewTopicView) -> Seq<u8> {
    lit_name_key() + esc(encode_utf8(t.topic_name)) + seq![0x22u8] + lit_reviewed_key()
        + spec_emit_timestamp(t.last_reviewed) + lit_gap_key() + encode_utf8(
        spec_tier_name(t.next_review_gap),
    ) + lit_close()
}

/// The stored form of the topic list: the topics in order, separated by
/// commas.
pub open spec fn spec_emit_topics(ts: Seq<ReviewTopicView>) -> Seq<u8>
    decreases ts.len(),
{
    if ts.len() == 0 {
        Seq::empty()
    } else if ts.len() == 1 {
        spec_emit_topic(ts[0])
    } else {
        spec_emit_topics(ts.drop_last()) + seq![0x2Cu8] + spec_emit_topic(ts.last())
    }
}

/// The stored form of the whole collection.
pub open spec fn spec_save(ts: Seq<ReviewTopicView>) -> Seq<u8> {
    encode_utf8("{\"review_topic_list\":["@) + spec_emit_topics(ts) + seq![0x5Du8, 0x7Du8]
}

// --- Writing the format. ---

/// Append the bytes of `lit` to `out`.
fn push_lit(out: &mut Vec<u8>, lit: &str)
    ensures
        final(out)@ == old(out)@ + lit.spec_bytes(),
{
    let bytes = lit.as_bytes();
    let n = bytes.len();
    let mut i: usize = 0;
    while i < n
        invariant
            n == bytes@.len(),
            i <= n,
            bytes@ == lit.spec_bytes(),
            out@ == old(out)@ + bytes@.take(i as int),
        decreases n - i,
    {
        out.push(bytes[i]);
        proof {
            assert(old(out)@ + bytes@.take(i as int + 1) =~= (old(out)@ + bytes@.take(
                i as int,
            )).push(bytes@[i as int]));
        }
        i = i + 1;
    }
    proof {
        assert(bytes@.take(n as int) =~= bytes@);
    }
}

/// Append `n % 10**width` to `out`, as `width` digits.
fn push_fixed_digits(out: &mut Vec<u8>, n: u64, width: u64)
    ensures
        final(out)@ == old(out)@ + fixed_digits(n as int, width as int),
    decreases width,
{
    if width == 0 {
        proof {
            assert(old(out)@ + fixed_digits(n as int, 0) =~= old(out)@);
        }
    } else {
        push_fixed_digits(out, n / 10, width - 1);
        out.push(0x30 + ((n % 10) as u8));
        proof {
            assert(old(out)@ + fixed_digits(n as int, width as int) =~= (old(out)@
                + fixed_digits(n as int / 10, width as int - 1)).push(
                (0x30 + (n as int % 10)) as u8,
            ));
        }
    }
}

/// Append the escaped form of `s` to `out`.
fn push_escaped(out: &mut Vec<u8>, s: &[u8])
    ensures
        final(out)@ == old(out)@ + esc(s@),
{
    let n = s.len();
    let mut i: usize = 0;
    proof {
        assert(old(out)@ + esc(s@.take(0)) =~= old(out)@);
    }
    while i < n
        invariant
            n == s@.len(),
            i <= n,
            out@ == old(out)@ + esc(s@.take(i as int)),
        decreases n - i,
    {
        let b = s[i];
        if b == 0x22 {
            out.push(0x5C);
            out.push(0x22);
        } else if b == 0x5C {
            out.push(0x5C);
            out.push(0x5C);
        } else if b == 0x0A {
            out.push(0x5C);
            out.push(0x6E);
        } else if b == 0x0D {
            out.push(0x5C);
            out.push(0x72);
        } else if b == 0x09 {
            out.push(0x5C);
            out.push(0x74);
        } else {
            out.push(b);
        }
        proof {
            assert(s@.take(i as int + 1).drop_last() =~= s@.take(i as int));
            assert(s@.take(i as int + 1).last() == s@[i as int]);
            assert(out@ =~= old(out)@ + (esc(s@.take(i as int)) + esc1(s@[i as int])));
        }
        i = i + 1;
    }
    proof {
        assert(s@.take(n as int) =~= s@);
    }
}

/// Append the stored form of `t` to `out`.
#[verifier::rlimit(50)]
fn push_timestamp(out: &mut Vec<u8>, t: &Timestamp)
    requires
        t.valid(),
    ensures
        final(out)@ == old(out)@ + spec_emit_timestamp(*t),
{
    push_fixed_digits(out, t.date.year as u64, 4);
    out.push(0x2D);
    push_fixed_digits(out, t.date.month as u64, 2);
    out.push(0x2D);
    push_fixed_digits(out, t.date.day as u64, 2);
    out.push(0x54);
    push_fixed_digits(out, t.hour as u64, 2);
    out.push(0x3A);
    push_fixed_digits(out, t.minute as u64, 2);
    out.push(0x3A);
    push_fixed_digits(out, t.second as u64, 2);
    out.push(0x2E);
    push_fixed_digits(out, t.nanosecond as u64, 9);
    let mag: u64 = if t.offset_minutes >= 0 {
        out.push(0x2B);
        t.offset_minutes as u64
    } else {
        out.push(0x2D);
        (-(t.offset_minutes as i32)) as u64
    };
    push_fixed_digits(out, mag / 60, 2);
    out.push(0x3A);
    push_fixed_digits(out, mag % 60, 2);
    proof {
        assert(out@ =~= old(out)@ + spec_emit_timestamp(*t));
    }
}

/// Append the stored word for `g` to `out`.
fn push_tier(out: &mut Vec<u8>, g: &NextReviewGap)
    ensures
        final(out)@ == old(out)@ + encode_utf8(spec_tier_name(*g)),
{
    match g {
        NextReviewGap::Day => push_lit(out, "Day"),
        NextReviewGap::Week => push_lit(out, "Week"),
        NextReviewGap::Month => push_lit(out, "Month"),
    }
}

/// Append the stored form of one topic to `out`.
#[verifier::rlimit(50)]
fn push_topic(out: &mut Vec<u8>, t: &ReviewTopic)
    requires
        t@.wf(),
    ensures
        final(out)@ == old(out)@ + spec_emit_topic(t@),
{
    push_lit(out, "{\"topic_name\":\"");
    push_escaped(out, t.topic_name.as_str().as_bytes());
    out.push(0x22);
    push_lit(out, ",\"last_reviewed\":\"");
    push_timestamp(out, &t.last_reviewed);
    push_lit(out, "\",\"next_review_gap\":\"");
    push_tier(out, &t.next_review_gap);
    push_lit(out, "\"}");
    proof {
        assert(out@ =~= old(out)@ + spec_emit_topic(t@));
    }
}

/// The stored form of the topic list `list`, as the bytes of the saved
/// file.
pub fn save_topics(list: &Vec<ReviewTopic>) -> (r: Vec<u8>)
    requires
        crate::storage::spec_wf_topics(spec_views(list@)),
    ensures
        r@ == spec_save(spec_views(list@)),
{
    broadcast use crate::review_topics::lemma_spec_views_index;

    let mut out: Vec<u8> = Vec::new();
    push_lit(&mut out, "{\"review_topic_list\":[");
    let ghost head = out@;
    let n = list.len();
    let mut i: usize = 0;
    proof {
        assert(spec_emit_topics(spec_views(list@).take(0)) =~= Seq::<u8>::empty());
        assert(out@ =~= head + spec_emit_topics(spec_views(list@).take(0)));
    }
    while i < n
        invariant
            n == list@.len(),
            i <= n,
            crate::storage::spec_wf_topics(spec_views(list@)),
            out@ == head + spec_emit_topics(spec_views(list@).take(i as int)),
        decreases n - i,
    {
        broadcast use crate::review_topics::lemma_spec_views_index;

        let ghost taken = spec_views(list@).take(i as int + 1);
        proof {
            assert(taken.drop_last() =~= spec_views(list@).take(i as int));
            assert(taken.last() == spec_views(list@)[i as int]);
        }
        if i > 0 {
            out.push(0x2C);
        }
        push_topic(&mut out, &list[i]);
        proof {
            if i == 0 {
                assert(taken =~= seq![spec_views(list@)[0]]);
                assert(out@ =~= head + spec_emit_topics(taken));
            } else {
                assert(out@ =~= head + spec_emit_topics(taken));
            }
        }
        i = i + 1;
    }
    out.push(0x5D);
    out.push(0x7D);
    proof {
        assert(spec_views(list@).take(n as int) =~= spec_views(list@));
        assert(out@ =~= spec_save(spec_views(list@)));
    }
    out
}

// --- Facts about the format. ---

/// Escaping distributes over concatenation.
proof fn lemma_esc_add(a: Seq<u8>, b: Seq<u8>)
    ensures
        esc(a + b) == esc(a) + esc(b),
    decreases b.len(),
{
    if b.len() == 0 {
        assert(a + b =~= a);
        assert(esc(a) + esc(b) =~= esc(a));
    } else {
        lemma_esc_add(a, b.drop_last());
        assert((a + b).drop_last() =~= a + b.drop_last());
        assert((a + b).last() == b.last());
        assert(esc(a) + esc(b) =~= esc(a) + (esc(b.drop_last()) + esc1(b.last())));
    }
}

/// Escaping a nonempty sequence starts with the escape of its first byte.
proof fn lemma_esc_first(s: Seq<u8>)
    requires
        s.len() > 0,
    ensures
        esc(s) == esc1(s[0]) + esc(s.skip(1)),
{
    assert(s =~= seq![s[0]] + s.skip(1));
    lemma_esc_add(seq![s[0]], s.skip(1));
    assert(esc(seq![s[0]]) == esc(seq![s[0]].drop_last()) + esc1(seq![s[0]].last()));
    assert(seq![s[0]].drop_last() =~= Seq::<u8>::empty());
    assert(seq![s[0]].last() == s[0]);
    assert(esc(Seq::<u8>::empty()) + esc1(s[0]) =~= esc1(s[0]));
}

/// A fixed-width digit run has its width as length, and holds only
/// ASCII digits.
proof fn lemma_fixed_digits_len(n: int, w: int)
    requires
        w >= 0,
    ensures
        fixed_digits(n, w).len() == w,
        forall|i: int| 0 <= i < w ==> 0x30 <= #[trigger] fixed_digits(n, w)[i] <= 0x39,
    decreases w,
{
    if w > 0 {
        lemma_fixed_digits_len(n / 10, w - 1);
    }
}

/// Two numbers below `10**w` with the same `w` digits are the same.
proof fn lemma_fixed_digits_injective(n1: int, n2: int, w: int)
    requires
        w >= 0,
        0 <= n1 < pow10(w),
        0 <= n2 < pow10(w),
        fixed_digits(n1, w) == fixed_digits(n2, w),
    ensures
        n1 == n2,
    decreases w,
{
    if w == 0 {
    } else {
        lemma_fixed_digits_len(n1 / 10, w - 1);
        lemma_fixed_digits_len(n2 / 10, w - 1);
        assert(fixed_digits(n1, w) == fixed_digits(n1 / 10, w - 1) + seq![(0x30 + n1 % 10) as u8]);
        assert(fixed_digits(n2, w) == fixed_digits(n2 / 10, w - 1) + seq![(0x30 + n2 % 10) as u8]);
        assert(fixed_digits(n1, w).last() == (0x30 + n1 % 10) as u8);
        assert(fixed_digits(n2, w).last() == (0x30 + n2 % 10) as u8);
        assert(n1 % 10 == n2 % 10);
        assert(fixed_digits(n1, w).drop_last() =~= fixed_digits(n1 / 10, w - 1));
        assert(fixed_digits(n2, w).drop_last() =~= fixed_digits(n2 / 10, w - 1));
        assert(n1 / 10 < pow10(w - 1) && n2 / 10 < pow10(w - 1)) by {
            vstd::arithmetic::div_mod::lemma_fundamental_div_mod(n1, 10);
            vstd::arithmetic::div_mod::lemma_fundamental_div_mod(n2, 10);
        }
        lemma_fixed_digits_injective(n1 / 10, n2 / 10, w - 1);
        vstd::arithmetic::div_mod::lemma_fundamental_div_mod(n1, 10);
        vstd::arithmetic::div_mod::lemma_fundamental_div_mod(n2, 10);
    }
}

proof fn lemma_pow10_values()
    ensures
        pow10(2) == 100,
        pow10(4) == 10000,
        pow10(9) == 1_000_000_000,
{
    reveal_with_fuel(pow10, 11);
}

// --- Reading the format back. ---

/// Read exactly `width` ASCII digits at `i` as a number. Succeeds
/// exactly when `width` digits are there, and then consumes exactly the
/// digit run of the value it returns.
fn parse_fixed(b: &Vec<u8>, i: usize, width: usize) -> (r: Option<(u64, usize)>)
    requires
        width <= 9,
    ensures
        r matches Some((v, j)) ==> {
            &&& j == i + width
            &&& j <= b@.len()
            &&& v < pow10(width as int)
            &&& b@.subrange(i as int, j as int) == fixed_digits(v as int, width as int)
        },
        (i + width <= b@.len() && (forall|k: int| i <= k < i + width ==> 0x30 <= #[trigger] b@[k]
            <= 0x39)) ==> r is Some,
{
    proof {
        lemma_pow10_values();
    }
    let blen = b.len();
    if blen < width || i > blen - width {
        return None;
    }
    let mut v: u64 = 0;
    let mut k: usize = 0;
    proof {
        assert(b@.subrange(i as int, i as int) =~= fixed_digits(0, 0));
    }
    while k < width
        invariant
            width <= 9,
            blen == b@.len(),
            i + width <= blen,
            k <= width,
            v < pow10(k as int),
            b@.subrange(i as int, i as int + k as int) == fixed_digits(v as int, k as int),
            forall|m: int| i <= m < i + k ==> 0x30 <= #[trigger] b@[m] <= 0x39,
        decreases width - k,
    {
        let c = b[i + k];
        if c < 0x30 || c > 0x39 {
            return None;
        }
        let d = (c - 0x30) as u64;
        let ghost v0 = v as int;
        proof {
            lemma_pow10_mono(k as int + 1, 9);
            lemma_pow10_values();
            assert(pow10(k as int + 1) == 10 * pow10(k as int));
        }
        v = v * 10 + d;
        proof {
            vstd::arithmetic::div_mod::lemma_fundamental_div_mod_converse(
                v as int,
                10,
                v0,
                d as int,
            );
            assert(fixed_digits(v as int, k as int + 1) == fixed_digits(v as int / 10, k as int)
                + seq![(0x30 + v as int % 10) as u8]);
            assert(b@.subrange(i as int, i as int + k as int + 1) =~= fixed_digits(
                v as int,
                k as int + 1,
            ));
        }
        k = k + 1;
    }
    Some((v, i + width))
}

/// Expect the bytes of `lit` at `i`. Succeeds exactly when they are
/// there.
fn expect_lit(b: &Vec<u8>, i: usize, lit: &str) -> (r: Option<usize>)
    ensures
        r matches Some(j) ==> {
            &&& j == i + lit.spec_bytes().len()
            &&& j <= b@.len()
            &&& b@.subrange(i as int, j as int) == lit.spec_bytes()
        },
        (i + lit.spec_bytes().len() <= b@.len() && b@.subrange(
            i as int,
            i + lit.spec_bytes().len(),
        ) == lit.spec_bytes()) ==> r is Some,
{
    let bytes = lit.as_bytes();
    let n = bytes.len();
    let blen = b.len();
    if blen < n || i > blen - n {
        return None;
    }
    let mut k: usize = 0;
    while k < n
        invariant
            n == bytes@.len(),
            blen == b@.len(),
            bytes@ == lit.spec_bytes(),
            i + n <= blen,
            k <= n,
            forall|m: int| 0 <= m < k ==> b@[i + m] == bytes@[m],
        decreases n - k,
    {
        if b[i + k] != bytes[k] {
            proof {
                assert(b@.subrange(i as int, i as int + n as int)[k as int] == b@[i + k]);
            }
            return None;
        }
        k = k + 1;
    }
    proof {
        assert(b@.subrange(i as int, i as int + n as int) =~= bytes@);
    }
    Some(i + n)
}

/// The bytes of `bb` at `i0` spell the escaped form of `n`, closed by
/// an unescaped quote.
pub open spec fn spec_escaped_at(bb: Seq<u8>, i0: int, n: Seq<u8>) -> bool {
    &&& 0 <= i0
    &&& i0 + esc(n).len() < bb.len()
    &&& bb.subrange(i0, i0 + esc(n).len()) == esc(n)
    &&& bb[i0 + esc(n).len()] == 0x22
}

/// How the escaped form of `n` splits around position `k` of `n`.
proof fn lemma_esc_split(n: Seq<u8>, k: int)
    requires
        0 <= k <= n.len(),
    ensures
        esc(n) == esc(n.take(k)) + esc(n.skip(k)),
        k < n.len() ==> esc(n.skip(k)) == esc1(n[k]) + esc(n.skip(k + 1)),
        k < n.len() ==> esc(n.take(k + 1)) == esc(n.take(k)) + esc1(n[k]),
{
    assert(n =~= n.take(k) + n.skip(k));
    lemma_esc_add(n.take(k), n.skip(k));
    if k < n.len() {
        lemma_esc_first(n.skip(k));
        assert(n.skip(k)[0] == n[k]);
        assert(n.skip(k).skip(1) =~= n.skip(k + 1));
        assert(n.take(k + 1).drop_last() =~= n.take(k));
        assert(n.take(k + 1).last() == n[k]);
        assert(esc(n.take(k + 1)) == esc(n.take(k)) + esc1(n[k]));
    }
}

/// Read one string body at `i0`, undoing the escapes, up to and past the
/// closing quote. Whenever the input spells the escaped form of some
/// byte sequence, that sequence is returned and exactly its escaped form
/// and the quote are consumed.
fn parse_string_raw(b: &Vec<u8>, i0: usize) -> (r: Option<(Vec<u8>, usize)>)
    ensures
        r matches Some((v, j)) ==> i0 < j <= b@.len(),
        forall|n: Seq<u8>| spec_escaped_at(b@, i0 as int, n) ==> (r matches Some((v, j)) && v@
            == n && j == i0 + esc(n).len() + 1),
{
    let blen = b.len();
    if i0 >= blen {
        return None;
    }
    let mut out: Vec<u8> = Vec::new();
    let mut i: usize = i0;
    proof {
        assert(out@ =~= Seq::<u8>::empty());
        assert forall|n: Seq<u8>| spec_escaped_at(b@, i0 as int, n) implies {
            &&& out@.len() <= n.len()
            &&& out@ == n.take(out@.len() as int)
            &&& i == i0 + esc(n.take(out@.len() as int)).len()
        } by {
            assert(n.take(0) =~= Seq::<u8>::empty());
            assert(esc(n.take(0)).len() == 0);
        }
    }
    loop
        invariant
            i0 <= i <= blen,
            blen == b@.len(),
            forall|n: Seq<u8>| spec_escaped_at(b@, i0 as int, n) ==> {
                &&& out@.len() <= n.len()
                &&& out@ == n.take(out@.len() as int)
                &&& i == i0 + esc(n.take(out@.len() as int)).len()
            },
        decreases blen - i,
    {
        let ghost k = out@.len() as int;
        if i >= blen {
            proof {
                assert forall|n: Seq<u8>| !spec_escaped_at(b@, i0 as int, n) by {
                    if spec_escaped_at(b@, i0 as int, n) {
                        lemma_esc_split(n, k);
                    }
                }
            }
            return None;
        }
        let c = b[i];
        if c == 0x22 {
            proof {
                assert forall|n: Seq<u8>| spec_escaped_at(b@, i0 as int, n) implies out@ == n
                    && i + 1 == i0 + esc(n).len() + 1 by {
                    lemma_esc_split(n, k);
                    if k < n.len() {
                        assert(b@[i as int] == esc(n)[i - i0]);
                        assert(esc(n)[i - i0] == esc(n.skip(k))[0]);
                        assert(esc(n.skip(k))[0] == esc1(n[k])[0]);
                        assert(esc1(n[k])[0] != 0x22);
                        assert(false);
                    }
                    assert(n.take(n.len() as int) =~= n);
                }
            }
            return Some((out, i + 1));
        } else if c == 0x5C {
            proof {
                assert forall|n: Seq<u8>| spec_escaped_at(b@, i0 as int, n) implies k < n.len()
                    && esc1(n[k]).len() == 2 && i + 2 <= i0 + esc(n).len() && b@[i + 1]
                    == esc1(n[k])[1] by {
                    lemma_esc_split(n, k);
                    if k == n.len() {
                        assert(b@[i as int] == b@[i0 + esc(n).len()]);
                        assert(false);
                    }
                    assert(b@[i as int] == esc(n)[i - i0]);
                    assert(esc(n)[i - i0] == esc1(n[k])[0]);
                    assert(esc1(n[k])[0] == 0x5C);
                    assert(esc1(n[k]).len() == 2);
                    assert(b@[i + 1] == esc(n)[i + 1 - i0]);
                    assert(esc(n)[i + 1 - i0] == esc1(n[k])[1]);
                }
            }
            if i + 1 >= blen {
                return None;
            }
            let e = b[i + 1];
            let d: u8 = if e == 0x22 {
                0x22
            } else if e == 0x5C {
                0x5C
            } else if e == 0x6E {
                0x0A
            } else if e == 0x72 {
                0x0D
            } else if e == 0x74 {
                0x09
            } else {
                proof {
                    assert forall|n: Seq<u8>| !spec_escaped_at(b@, i0 as int, n) by {
                        if spec_escaped_at(b@, i0 as int, n) {
                            lemma_esc_split(n, k);
                        }
                    }
                }
                return None;
            };
            out.push(d);
            proof {
                assert forall|n: Seq<u8>| spec_escaped_at(b@, i0 as int, n) implies {
                    &&& out@.len() <= n.len()
                    &&& out@ == n.take(out@.len() as int)
                    &&& i + 2 == i0 + esc(n.take(out@.len() as int)).len()
                } by {
                    lemma_esc_split(n, k);
                    assert(n[k] == d);
                    assert(out@ =~= n.take(k + 1));
                }
            }
            i = i + 2;
        } else {
            out.push(c);
            proof {
                assert forall|n: Seq<u8>| spec_escaped_at(b@, i0 as int, n) implies {
                    &&& out@.len() <= n.len()
                    &&& out@ == n.take(out@.len() as int)
                    &&& i + 1 == i0 + esc(n.take(out@.len() as int)).len()
                } by {
                    lemma_esc_split(n, k);
                    if k == n.len() as int {
                        assert(b@[i as int] == b@[i0 + esc(n).len()]);
                        assert(false);
                    }
                    assert(b@[i as int] == esc(n)[i - i0]);
                    assert(esc(n)[i - i0] == esc1(n[k])[0]);
                    assert(n[k] == c);
                    assert(out@ =~= n.take(k + 1));
                }
            }
            i = i + 1;
        }
    }
}

/// The byte values of the stored tier words.
proof fn lemma_tier_word_bytes()
    ensures
        encode_utf8("Day"@) =~= seq![0x44u8, 0x61u8, 0x79u8],
        encode_utf8("Week"@) =~= seq![0x57u8, 0x65u8, 0x65u8, 0x6Bu8],
        encode_utf8("Month"@) =~= seq![0x4Du8, 0x6Fu8, 0x6Eu8, 0x74u8, 0x68u8],
{
    broadcast use vstd::utf8::is_ascii_chars_encode_utf8;

    reveal_strlit("Day");
    reveal_strlit("Week");
    reveal_strlit("Month");
    assert(vstd::utf8::is_ascii_chars("Day"@));
    assert(vstd::utf8::is_ascii_chars("Week"@));
    assert(vstd::utf8::is_ascii_chars("Month"@));
}

/// The sizes of the fixed pieces, and the bytes the parser dispatches
/// on: a stored topic opens with a brace.
proof fn lemma_format_literals()
    ensures
        lit_name_key().len() == 15,
        lit_name_key()[0] == 0x7B,
        lit_reviewed_key().len() == 18,
        lit_gap_key().len() == 21,
        lit_close().len() == 2,
{
    broadcast use vstd::utf8::is_ascii_chars_encode_utf8;

    reveal_strlit("{\"topic_name\":\"");
    reveal_strlit(",\"last_reviewed\":\"");
    reveal_strlit("\",\"next_review_gap\":\"");
    reveal_strlit("\"}");
    assert(vstd::utf8::is_ascii_chars("{\"topic_name\":\""@));
    assert(vstd::utf8::is_ascii_chars(",\"last_reviewed\":\""@));
    assert(vstd::utf8::is_ascii_chars("\",\"next_review_gap\":\""@));
    assert(vstd::utf8::is_ascii_chars("\"}"@));
}

/// Read a tier word at `i`. Whenever the input spells a tier's word,
/// that tier is returned and exactly its word is consumed.
fn parse_tier(b: &Vec<u8>, i: usize) -> (r: Option<(NextReviewGap, usize)>)
    ensures
        r matches Some((g, j)) ==> i < j <= b@.len(),
        forall|g: NextReviewGap| #![trigger spec_tier_name(g)] (i + encode_utf8(
            spec_tier_name(g),
        ).len() <= b@.len() && b@.subrange(i as int, i + encode_utf8(spec_tier_name(g)).len())
            == encode_utf8(spec_tier_name(g))) ==> (r matches Some((g2, j)) && g2 == g && j == i
            + encode_utf8(spec_tier_name(g)).len()),
{
    proof {
        lemma_tier_word_bytes();
    }
    match expect_lit(b, i, "Day") {
        Some(j) => {
            return Some((NextReviewGap::Day, j));
        },
        None => {},
    }
    match expect_lit(b, i, "Week") {
        Some(j) => {
            return Some((NextReviewGap::Week, j));
        },
        None => {},
    }
    match expect_lit(b, i, "Month") {
        Some(j) => {
            return Some((NextReviewGap::Month, j));
        },
        None => {},
    }
    None
}

/// The bytes of `bb` at `i` spell the stored form of the timestamp `ts`.
pub open spec fn spec_ts_at(bb: Seq<u8>, i: int, ts: Timestamp) -> bool {
    &&& ts.valid()
    &&& 0 <= i
    &&& i + 35 <= bb.len()
    &&& bb.subrange(i, i + 35) == spec_emit_timestamp(ts)
}

/// Where each field of a stored timestamp lies within the input.
#[verifier::rlimit(100)]
#[verifier::spinoff_prover]
proof fn lemma_ts_segments(ts: Timestamp, bb: Seq<u8>, i: int)
    requires
        spec_ts_at(bb, i, ts),
    ensures
        spec_emit_timestamp(ts).len() == 35,
        bb.subrange(i, i + 4) == fixed_digits(ts.date.year as int, 4),
        bb[i + 4] == 0x2D,
        bb.subrange(i + 5, i + 7) == fixed_digits(ts.date.month as int, 2),
        bb[i + 7] == 0x2D,
        bb.subrange(i + 8, i + 10) == fixed_digits(ts.date.day as int, 2),
        bb[i + 10] == 0x54,
        bb.subrange(i + 11, i + 13) == fixed_digits(ts.hour as int, 2),
        bb[i + 13] == 0x3A,
        bb.subrange(i + 14, i + 16) == fixed_digits(ts.minute as int, 2),
        bb[i + 16] == 0x3A,
        bb.subrange(i + 17, i + 19) == fixed_digits(ts.second as int, 2),
        bb[i + 19] == 0x2E,
        bb.subrange(i + 20, i + 29) == fixed_digits(ts.nanosecond as int, 9),
        bb[i + 29] == (if ts.offset_minutes >= 0 {
            0x2Bu8
        } else {
            0x2Du8
        }),
        bb.subrange(i + 30, i + 32) == fixed_digits(abs_offset(ts.offset_minutes) / 60, 2),
        bb[i + 32] == 0x3A,
        bb.subrange(i + 33, i + 35) == fixed_digits(abs_offset(ts.offset_minutes) % 60, 2),
        forall|k: int| i <= k < i + 4 ==> 0x30 <= #[trigger] bb[k] <= 0x39,
        forall|k: int| i + 5 <= k < i + 7 ==> 0x30 <= #[trigger] bb[k] <= 0x39,
        forall|k: int| i + 8 <= k < i + 10 ==> 0x30 <= #[trigger] bb[k] <= 0x39,
        forall|k: int| i + 11 <= k < i + 13 ==> 0x30 <= #[trigger] bb[k] <= 0x39,
        forall|k: int| i + 14 <= k < i + 16 ==> 0x30 <= #[trigger] bb[k] <= 0x39,
        forall|k: int| i + 17 <= k < i + 19 ==> 0x30 <= #[trigger] bb[k] <= 0x39,
        forall|k: int| i + 20 <= k < i + 29 ==> 0x30 <= #[trigger] bb[k] <= 0x39,
        forall|k: int| i + 30 <= k < i + 32 ==> 0x30 <= #[trigger] bb[k] <= 0x39,
        forall|k: int| i + 33 <= k < i + 35 ==> 0x30 <= #[trigger] bb[k] <= 0x39,
{
    lemma_fixed_digits_len(ts.date.year as int, 4);
    lemma_fixed_digits_len(ts.date.month as int, 2);
    lemma_fixed_digits_len(ts.date.day as int, 2);
    lemma_fixed_digits_len(ts.hour as int, 2);
    lemma_fixed_digits_len(ts.minute as int, 2);
    lemma_fixed_digits_len(ts.second as int, 2);
    lemma_fixed_digits_len(ts.nanosecond as int, 9);
    lemma_fixed_digits_len(abs_offset(ts.offset_minutes) / 60, 2);
    lemma_fixed_digits_len(abs_offset(ts.offset_minutes) % 60, 2);
    let fd_y = fixed_digits(ts.date.year as int, 4);
    let fd_mo = fixed_digits(ts.date.month as int, 2);
    let fd_d = fixed_digits(ts.date.day as int, 2);
    let fd_h = fixed_digits(ts.hour as int, 2);
    let fd_mi = fixed_digits(ts.minute as int, 2);
    let fd_s = fixed_digits(ts.second as int, 2);
    let fd_n = fixed_digits(ts.nanosecond as int, 9);
    let fd_oh = fixed_digits(abs_offset(ts.offset_minutes) / 60, 2);
    let fd_om = fixed_digits(abs_offset(ts.offset_minutes) % 60, 2);
    let sgn: u8 = if ts.offset_minutes >= 0 { 0x2Bu8 } else { 0x2Du8 };
    let p0 = fd_y;
    assert(p0.len() == 4);
    let p1 = p0 + seq![0x2Du8];
    assert(p1.len() == 5);
    let p2 = p1 + fd_mo;
    assert(p2.len() == 7);
    let p3 = p2 + seq![0x2Du8];
    assert(p3.len() == 8);
    let p4 = p3 + fd_d;
    assert(p4.len() == 10);
    let p5 = p4 + seq![0x54u8];
    assert(p5.len() == 11);
    let p6 = p5 + fd_h;
    assert(p6.len() == 13);
    let p7 = p6 + seq![0x3Au8];
    assert(p7.len() == 14);
    let p8 = p7 + fd_mi;
    assert(p8.len() == 16);
    let p9 = p8 + seq![0x3Au8];
    assert(p9.len() == 17);
    let p10 = p9 + fd_s;
    assert(p10.len() == 19);
    let p11 = p10 + seq![0x2Eu8];
    assert(p11.len() == 20);
    let p12 = p11 + fd_n;
    assert(p12.len() == 29);
    let p13 = p12 + seq![sgn];
    assert(p13.len() == 30);
    let p14 = p13 + fd_oh;
    assert(p14.len() == 32);
    let p15 = p14 + seq![0x3Au8];
    assert(p15.len() == 33);
    let p16 = p15 + fd_om;
    assert(p16.len() == 35);
    let e = spec_emit_timestamp(ts);
    assert(e == p16);
    assert forall|x: int| 0 <= x < 4 implies e[0 + x] == fd_y[x] by {
        assert(p16[0 + x] == (p15 + fd_om)[0 + x]);
        assert(p16[0 + x] == p15[0 + x]);
        assert(p15[0 + x] == p14[0 + x]);
        assert(p14[0 + x] == p13[0 + x]);
        assert(p13[0 + x] == p12[0 + x]);
        assert(p12[0 + x] == p11[0 + x]);
        assert(p11[0 + x] == p10[0 + x]);
        assert(p10[0 + x] == p9[0 + x]);
        assert(p9[0 + x] == p8[0 + x]);
        assert(p8[0 + x] == p7[0 + x]);
        assert(p7[0 + x] == p6[0 + x]);
        assert(p6[0 + x] == p5[0 + x]);
        assert(p5[0 + x] == p4[0 + x]);
        assert(p4[0 + x] == p3[0 + x]);
        assert(p3[0 + x] == p2[0 + x]);
        assert(p2[0 + x] == p1[0 + x]);
        assert(p1[0 + x] == p0[0 + x]);
        assert(p0[0 + x] == fd_y[x]);
    }
    assert(e[4] == 0x2Du8) by {
        assert(p16[4] == p15[4]);
        assert(p15[4] == p14[4]);
        assert(p14[4] == p13[4]);
        assert(p13[4] == p12[4]);
        assert(p12[4] == p11[4]);
        assert(p11[4] == p10[4]);
        assert(p10[4] == p9[4]);
        assert(p9[4] == p8[4]);
        assert(p8[4] == p7[4]);
        assert(p7[4] == p6[4]);
        assert(p6[4] == p5[4]);
        assert(p5[4] == p4[4]);
        assert(p4[4] == p3[4]);
        assert(p3[4] == p2[4]);
        assert(p2[4] == p1[4]);
        assert(p1[4] == 0x2Du8);
    }
    assert forall|x: int| 0 <= x < 2 implies e[5 + x] == fd_mo[x] by {
        assert(p16[5 + x] == (p15 + fd_om)[5 + x]);
        assert(p16[5 + x] == p15[5 + x]);
        assert(p15[5 + x] == p14[5 + x]);
        assert(p14[5 + x] == p13[5 + x]);
        assert(p13[5 + x] == p12[5 + x]);
        assert(p12[5 + x] == p11[5 + x]);
        assert(p11[5 + x] == p10[5 + x]);
        assert(p10[5 + x] == p9[5 + x]);
        assert(p9[5 + x] == p8[5 + x]);
        assert(p8[5 + x] == p7[5 + x]);
        assert(p7[5 + x] == p6[5 + x]);
        assert(p6[5 + x] == p5[5 + x]);
        assert(p5[5 + x] == p4[5 + x]);
        assert(p4[5 + x] == p3[5 + x]);
        assert(p3[5 + x] == p2[5 + x]);
        assert(p2[5 + x] == fd_mo[x]);
    }
    assert(e[7] == 0x2Du8) by {
        assert(p16[7] == p15[7]);
        assert(p15[7] == p14[7]);
        assert(p14[7] == p13[7]);
        assert(p13[7] == p12[7]);
        assert(p12[7] == p11[7]);
        assert(p11[7] == p10[7]);
        assert(p10[7] == p9[7]);
        assert(p9[7] == p8[7]);
        assert(p8[7] == p7[7]);
        assert(p7[7] == p6[7]);
        assert(p6[7] == p5[7]);
        assert(p5[7] == p4[7]);
        assert(p4[7] == p3[7]);
        assert(p3[7] == 0x2Du8);
    }
    assert forall|x: int| 0 <= x < 2 implies e[8 + x] == fd_d[x] by {
        assert(p16[8 + x] == (p15 + fd_om)[8 + x]);
        assert(p16[8 + x] == p15[8 + x]);
        assert(p15[8 + x] == p14[8 + x]);
        assert(p14[8 + x] == p13[8 + x]);
        assert(p13[8 + x] == p12[8 + x]);
        assert(p12[8 + x] == p11[8 + x]);
        assert(p11[8 + x] == p10[8 + x]);
        assert(p10[8 + x] == p9[8 + x]);
        assert(p9[8 + x] == p8[8 + x]);
        assert(p8[8 + x] == p7[8 + x]);
        assert(p7[8 + x] == p6[8 + x]);
        assert(p6[8 + x] == p5[8 + x]);
        assert(p5[8 + x] == p4[8 + x]);
        assert(p4[8 + x] == fd_d[x]);
    }
    assert(e[10] == 0x54u8) by {
        assert(p16[10] == p15[10]);
        assert(p15[10] == p14[10]);
        assert(p14[10] == p13[10]);
        assert(p13[10] == p12[10]);
        assert(p12[10] == p11[10]);
        assert(p11[10] == p10[10]);
        assert(p10[10] == p9[10]);
        assert(p9[10] == p8[10]);
        assert(p8[10] == p7[10]);
        assert(p7[10] == p6[10]);
        assert(p6[10] == p5[10]);
        assert(p5[10] == 0x54u8);
    }
    assert forall|x: int| 0 <= x < 2 implies e[11 + x] == fd_h[x] by {
        assert(p16[11 + x] == (p15 + fd_om)[11 + x]);
        assert(p16[11 + x] == p15[11 + x]);
        assert(p15[11 + x] == p14[11 + x]);
        assert(p14[11 + x] == p13[11 + x]);
        assert(p13[11 + x] == p12[11 + x]);
        assert(p12[11 + x] == p11[11 + x]);
        assert(p11[11 + x] == p10[11 + x]);
        assert(p10[11 + x] == p9[11 + x]);
        assert(p9[11 + x] == p8[11 + x]);
        assert(p8[11 + x] == p7[11 + x]);
        assert(p7[11 + x] == p6[11 + x]);
        assert(p6[11 + x] == fd_h[x]);
    }
    assert(e[13] == 0x3Au8) by {
        assert(p16[13] == p15[13]);
        assert(p15[13] == p14[13]);
        assert(p14[13] == p13[13]);
        assert(p13[13] == p12[13]);
        assert(p12[13] == p11[13]);
        assert(p11[13] == p10[13]);
        assert(p10[13] == p9[13]);
        assert(p9[13] == p8[13]);
        assert(p8[13] == p7[13]);
        assert(p7[13] == 0x3Au8);
    }
    assert forall|x: int| 0 <= x < 2 implies e[14 + x] == fd_mi[x] by {
        assert(p16[14 + x] == (p15 + fd_om)[14 + x]);
        assert(p16[14 + x] == p15[14 + x]);
        assert(p15[14 + x] == p14[14 + x]);
        assert(p14[14 + x] == p13[14 + x]);
        assert(p13[14 + x] == p12[14 + x]);
        assert(p12[14 + x] == p11[14 + x]);
        assert(p11[14 + x] == p10[14 + x]);
        assert(p10[14 + x] == p9[14 + x]);
        assert(p9[14 + x] == p8[14 + x]);
        assert(p8[14 + x] == fd_mi[x]);
    }
    assert(e[16] == 0x3Au8) by {
        assert(p16[16] == p15[16]);
        assert(p15[16] == p14[16]);
        assert(p14[16] == p13[16]);
        assert(p13[16] == p12[16]);
        assert(p12[16] == p11[16]);
        assert(p11[16] == p10[16]);
        assert(p10[16] == p9[16]);
        assert(p9[16] == 0x3Au8);
    }
    assert forall|x: int| 0 <= x < 2 implies e[17 + x] == fd_s[x] by {
        assert(p16[17 + x] == (p15 + fd_om)[17 + x]);
        assert(p16[17 + x] == p15[17 + x]);
        assert(p15[17 + x] == p14[17 + x]);
        assert(p14[17 + x] == p13[17 + x]);
        assert(p13[17 + x] == p12[17 + x]);
        assert(p12[17 + x] == p11[17 + x]);
        assert(p11[17 + x] == p10[17 + x]);
        assert(p10[17 + x] == fd_s[x]);
    }
    assert(e[19] == 0x2Eu8) by {
        assert(p16[19] == p15[19]);
        assert(p15[19] == p14[19]);
        assert(p14[19] == p13[19]);
        assert(p13[19] == p12[19]);
        assert(p12[19] == p11[19]);
        assert(p11[19] == 0x2Eu8);
    }
    assert forall|x: int| 0 <= x < 9 implies e[20 + x] == fd_n[x] by {
        assert(p16[20 + x] == (p15 + fd_om)[20 + x]);
        assert(p16[20 + x] == p15[20 + x]);
        assert(p15[20 + x] == p14[20 + x]);
        assert(p14[20 + x] == p13[20 + x]);
        assert(p13[20 + x] == p12[20 + x]);
        assert(p12[20 + x] == fd_n[x]);
    }
    assert(e[29] == sgn) by {
        assert(p16[29] == p15[29]);
        assert(p15[29] == p14[29]);
        assert(p14[29] == p13[29]);
        assert(p13[29] == sgn);
    }
    assert forall|x: int| 0 <= x < 2 implies e[30 + x] == fd_oh[x] by {
        assert(p16[30 + x] == (p15 + fd_om)[30 + x]);
        assert(p16[30 + x] == p15[30 + x]);
        assert(p15[30 + x] == p14[30 + x]);
        assert(p14[30 + x] == fd_oh[x]);
    }
    assert(e[32] == 0x3Au8) by {
        assert(p16[32] == p15[32]);
        assert(p15[32] == 0x3Au8);
    }
    assert forall|x: int| 0 <= x < 2 implies e[33 + x] == fd_om[x] by {
        assert(p16[33 + x] == (p15 + fd_om)[33 + x]);
        assert(p16[33 + x] == fd_om[x]);
    }
    assert(forall|x: int| 0 <= x < 35 ==> #[trigger] bb[i + x] == e[x]) by {
        assert(forall|x: int| 0 <= x < 35 ==> bb.subrange(i, i + 35)[x] == #[trigger] bb[i + x]);
    }
    assert(bb.subrange(i + 0, i + 4) =~= fd_y) by {
        assert forall|x: int| 0 <= x < 4 implies bb.subrange(i + 0, i + 4)[x] == fd_y[x] by {
            assert(bb.subrange(i + 0, i + 4)[x] == bb[i + 0 + x]);
            assert(bb[i + (0 + x)] == e[0 + x]);
        }
    }
    assert forall|k: int| i + 0 <= k < i + 4 implies 0x30 <= #[trigger] bb[k] <= 0x39 by {
        assert(bb.subrange(i + 0, i + 4)[k - (i + 0)] == bb[k]);
        assert(bb.subrange(i + 0, i + 4)[k - (i + 0)] == fd_y[k - (i + 0)]);
    }
    assert(bb.subrange(i + 5, i + 7) =~= fd_mo) by {
        assert forall|x: int| 0 <= x < 2 implies bb.subrange(i + 5, i + 7)[x] == fd_mo[x] by {
            assert(bb.subrange(i + 5, i + 7)[x] == bb[i + 5 + x]);
            assert(bb[i + (5 + x)] == e[5 + x]);
        }
    }
    assert forall|k: int| i + 5 <= k < i + 7 implies 0x30 <= #[trigger] bb[k] <= 0x39 by {
        assert(bb.subrange(i + 5, i + 7)[k - (i + 5)] == bb[k]);
        assert(bb.subrange(i + 5, i + 7)[k - (i + 5)] == fd_mo[k - (i + 5)]);
    }
    assert(bb.subrange(i + 8, i + 10) =~= fd_d) by {
        assert forall|x: int| 0 <= x < 2 implies bb.subrange(i + 8, i + 10)[x] == fd_d[x] by {
            assert(bb.subrange(i + 8, i + 10)[x] == bb[i + 8 + x]);
            assert(bb[i + (8 + x)] == e[8 + x]);
        }
    }
    assert forall|k: int| i + 8 <= k < i + 10 implies 0x30 <= #[trigger] bb[k] <= 0x39 by {
        assert(bb.subrange(i + 8, i + 10)[k - (i + 8)] == bb[k]);
        assert(bb.subrange(i + 8, i + 10)[k - (i + 8)] == fd_d[k - (i + 8)]);
    }
    assert(bb.subrange(i + 11, i + 13) =~= fd_h) by {
        assert forall|x: int| 0 <= x < 2 implies bb.subrange(i + 11, i + 13)[x] == fd_h[x] by {
            assert(bb.subrange(i + 11, i + 13)[x] == bb[i + 11 + x]);
            assert(bb[i + (11 + x)] == e[11 + x]);
        }
    }
    assert forall|k: int| i + 11 <= k < i + 13 implies 0x30 <= #[trigger] bb[k] <= 0x39 by {
        assert(bb.subrange(i + 11, i + 13)[k - (i + 11)] == bb[k]);
        assert(bb.subrange(i + 11, i + 13)[k - (i + 11)] == fd_h[k - (i + 11)]);
    }
    assert(bb.subrange(i + 14, i + 16) =~= fd_mi) by {
        assert forall|x: int| 0 <= x < 2 implies bb.subrange(i + 14, i + 16)[x] == fd_mi[x] by {
            assert(bb.subrange(i + 14, i + 16)[x] == bb[i + 14 + x]);
            assert(bb[i + (14 + x)] == e[14 + x]);
        }
    }
    assert forall|k: int| i + 14 <= k < i + 16 implies 0x30 <= #[trigger] bb[k] <= 0x39 by {
        assert(bb.subrange(i + 14, i + 16)[k - (i + 14)] == bb[k]);
        assert(bb.subrange(i + 14, i + 16)[k - (i + 14)] == fd_mi[k - (i + 14)]);
    }
    assert(bb.subrange(i + 17, i + 19) =~= fd_s) by {
        assert forall|x: int| 0 <= x < 2 implies bb.subrange(i + 17, i + 19)[x] == fd_s[x] by {
            assert(bb.subrange(i + 17, i + 19)[x] == bb[i + 17 + x]);
            assert(bb[i + (17 + x)] == e[17 + x]);
        }
    }
    assert forall|k: int| i + 17 <= k < i + 19 implies 0x30 <= #[trigger] bb[k] <= 0x39 by {
        assert(bb.subrange(i + 17, i + 19)[k - (i + 17)] == bb[k]);
        assert(bb.subrange(i + 17, i + 19)[k - (i + 17)] == fd_s[k - (i + 17)]);
    }
    assert(bb.subrange(i + 20, i + 29) =~= fd_n) by {
        assert forall|x: int| 0 <= x < 9 implies bb.subrange(i + 20, i + 29)[x] == fd_n[x] by {
            assert(bb.subrange(i + 20, i + 29)[x] == bb[i + 20 + x]);
            assert(bb[i + (20 + x)] == e[20 + x]);
        }
    }
    assert forall|k: int| i + 20 <= k < i + 29 implies 0x30 <= #[trigger] bb[k] <= 0x39 by {
        assert(bb.subrange(i + 20, i + 29)[k - (i + 20)] == bb[k]);
        assert(bb.subrange(i + 20, i + 29)[k - (i + 20)] == fd_n[k - (i + 20)]);
    }
    assert(bb.subrange(i + 30, i + 32) =~= fd_oh) by {
        assert forall|x: int| 0 <= x < 2 implies bb.subrange(i + 30, i + 32)[x] == fd_oh[x] by {
            assert(bb.subrange(i + 30, i + 32)[x] == bb[i + 30 + x]);
            assert(bb[i + (30 + x)] == e[30 + x]);
        }
    }
    assert forall|k: int| i + 30 <= k < i + 32 implies 0x30 <= #[trigger] bb[k] <= 0x39 by {
        assert(bb.subrange(i + 30, i + 32)[k - (i + 30)] == bb[k]);
        assert(bb.subrange(i + 30, i + 32)[k - (i + 30)] == fd_oh[k - (i + 30)]);
    }
    assert(bb.subrange(i + 33, i + 35) =~= fd_om) by {
        assert forall|x: int| 0 <= x < 2 implies bb.subrange(i + 33, i + 35)[x] == fd_om[x] by {
            assert(bb.subrange(i + 33, i + 35)[x] == bb[i + 33 + x]);
            assert(bb[i + (33 + x)] == e[33 + x]);
        }
    }
    assert forall|k: int| i + 33 <= k < i + 35 implies 0x30 <= #[trigger] bb[k] <= 0x39 by {
        assert(bb.subrange(i + 33, i + 35)[k - (i + 33)] == bb[k]);
        assert(bb.subrange(i + 33, i + 35)[k - (i + 33)] == fd_om[k - (i + 33)]);
    }
    assert(bb[i + 4] == e[4]);
    assert(bb[i + 7] == e[7]);
    assert(bb[i + 10] == e[10]);
    assert(bb[i + 13] == e[13]);
    assert(bb[i + 16] == e[16]);
    assert(bb[i + 19] == e[19]);
    assert(bb[i + 29] == e[29]);
    assert(bb[i + 32] == e[32]);
}

/// Read a stored timestamp at `i`. Whenever the input spells the stored
/// form of a timestamp, exactly that timestamp is returned.
#[verifier::spinoff_prover]
#[verifier::rlimit(100)]
fn parse_timestamp(b: &Vec<u8>, i: usize) -> (r: Option<(Timestamp, usize)>)
    ensures
        r matches Some((t, j)) ==> t.valid() && j == i + 35 && j <= b@.len(),
        forall|ts: Timestamp| spec_ts_at(b@, i as int, ts) ==> r == Some::<(Timestamp, usize)>(
            (ts, (i + 35) as usize),
        ),
{
    proof {
        lemma_pow10_values();
    }
    let blen = b.len();
    if blen < 35 || i > blen - 35 {
        return None;
    }
    let y = match parse_fixed(b, i, 4) {
        Some((v, _)) => v,
        None => {
            proof {
                assert forall|ts: Timestamp| !spec_ts_at(b@, i as int, ts) by {
                    if spec_ts_at(b@, i as int, ts) {
                        lemma_ts_segments(ts, b@, i as int);
                    }
                }
            }
            return None;
        },
    };
    let mo = match parse_fixed(b, i + 5, 2) {
        Some((v, _)) => v,
        None => {
            proof {
                assert forall|ts: Timestamp| !spec_ts_at(b@, i as int, ts) by {
                    if spec_ts_at(b@, i as int, ts) {
                        lemma_ts_segments(ts, b@, i as int);
                    }
                }
            }
            return None;
        },
    };
    let d = match parse_fixed(b, i + 8, 2) {
        Some((v, _)) => v,
        None => {
            proof {
                assert forall|ts: Timestamp| !spec_ts_at(b@, i as int, ts) by {
                    if spec_ts_at(b@, i as int, ts) {
                        lemma_ts_segments(ts, b@, i as int);
                    }
                }
            }
            return None;
        },
    };
    let h = match parse_fixed(b, i + 11, 2) {
        Some((v, _)) => v,
        None => {
            proof {
                assert forall|ts: Timestamp| !spec_ts_at(b@, i as int, ts) by {
                    if spec_ts_at(b@, i as int, ts) {
                        lemma_ts_segments(ts, b@, i as int);
                    }
                }
            }
            return None;
        },
    };
    let mi = match parse_fixed(b, i + 14, 2) {
        Some((v, _)) => v,
        None => {
            proof {
                assert forall|ts: Timestamp| !spec_ts_at(b@, i as int, ts) by {
                    if spec_ts_at(b@, i as int, ts) {
                        lemma_ts_segments(ts, b@, i as int);
                    }
                }
            }
            return None;
        },
    };
    let s = match parse_fixed(b, i + 17, 2) {
        Some((v, _)) => v,
        None => {
            proof {
                assert forall|ts: Timestamp| !spec_ts_at(b@, i as int, ts) by {
                    if spec_ts_at(b@, i as int, ts) {
                        lemma_ts_segments(ts, b@, i as int);
                    }
                }
            }
            return None;
        },
    };
    let n = match parse_fixed(b, i + 20, 9) {
        Some((v, _)) => v,
        None => {
            proof {
                assert forall|ts: Timestamp| !spec_ts_at(b@, i as int, ts) by {
                    if spec_ts_at(b@, i as int, ts) {
                        lemma_ts_segments(ts, b@, i as int);
                    }
                }
            }
            return None;
        },
    };
    let oh = match parse_fixed(b, i + 30, 2) {
        Some((v, _)) => v,
        None => {
            proof {
                assert forall|ts: Timestamp| !spec_ts_at(b@, i as int, ts) by {
                    if spec_ts_at(b@, i as int, ts) {
                        lemma_ts_segments(ts, b@, i as int);
                    }
                }
            }
            return None;
        },
    };
    let om = match parse_fixed(b, i + 33, 2) {
        Some((v, _)) => v,
        None => {
            proof {
                assert forall|ts: Timestamp| !spec_ts_at(b@, i as int, ts) by {
                    if spec_ts_at(b@, i as int, ts) {
                        lemma_ts_segments(ts, b@, i as int);
                    }
                }
            }
            return None;
        },
    };
    let sign = b[i + 29];
    let separators_ok = b[i + 4] == 0x2D && b[i + 7] == 0x2D && b[i + 10] == 0x54 && b[i + 13]
        == 0x3A && b[i + 16] == 0x3A && b[i + 19] == 0x2E && b[i + 32] == 0x3A && (sign == 0x2B
        || sign == 0x2D);
    let mag = oh * 60 + om;
    let fields_ok = y >= 1 && 1 <= mo && mo <= 12 && d >= 1 && h < 24 && mi < 60 && s < 60 && om
        < 60 && mag < 1440;
    if !separators_ok || !fields_ok {
        proof {
            assert forall|ts: Timestamp| !spec_ts_at(b@, i as int, ts) by {
                if spec_ts_at(b@, i as int, ts) {
                    lemma_ts_segments(ts, b@, i as int);
                    lemma_fixed_digits_injective(y as int, ts.date.year as int, 4);
                    lemma_fixed_digits_injective(mo as int, ts.date.month as int, 2);
                    lemma_fixed_digits_injective(d as int, ts.date.day as int, 2);
                    lemma_fixed_digits_injective(h as int, ts.hour as int, 2);
                    lemma_fixed_digits_injective(mi as int, ts.minute as int, 2);
                    lemma_fixed_digits_injective(s as int, ts.second as int, 2);
                    lemma_fixed_digits_injective(n as int, ts.nanosecond as int, 9);
                    lemma_fixed_digits_injective(
                        oh as int,
                        abs_offset(ts.offset_minutes) / 60,
                        2,
                    );
                    lemma_fixed_digits_injective(
                        om as int,
                        abs_offset(ts.offset_minutes) % 60,
                        2,
                    );
                    vstd::arithmetic::div_mod::lemma_fundamental_div_mod(
                        abs_offset(ts.offset_minutes),
                        60,
                    );
                }
            }
        }
        return None;
    }
    let dim = crate::dates::days_in_month(y as u16, mo as u8);
    if d > dim as u64 {
        proof {
            assert forall|ts: Timestamp| !spec_ts_at(b@, i as int, ts) by {
                if spec_ts_at(b@, i as int, ts) {
                    lemma_ts_segments(ts, b@, i as int);
                    lemma_fixed_digits_injective(y as int, ts.date.year as int, 4);
                    lemma_fixed_digits_injective(mo as int, ts.date.month as int, 2);
                    lemma_fixed_digits_injective(d as int, ts.date.day as int, 2);
                }
            }
        }
        return None;
    }
    let offset_minutes: i16 = if sign == 0x2B {
        mag as i16
    } else {
        -(mag as i16)
    };
    let t = Timestamp {
        date: crate::dates::Date { year: y as u16, month: mo as u8, day: d as u8 },
        hour: h as u8,
        minute: mi as u8,
        second: s as u8,
        nanosecond: n as u32,
        offset_minutes,
    };
    proof {
        assert forall|ts: Timestamp| spec_ts_at(b@, i as int, ts) implies t == ts by {
            lemma_ts_segments(ts, b@, i as int);
            lemma_fixed_digits_injective(y as int, ts.date.year as int, 4);
            lemma_fixed_digits_injective(mo as int, ts.date.month as int, 2);
            lemma_fixed_digits_injective(d as int, ts.date.day as int, 2);
            lemma_fixed_digits_injective(h as int, ts.hour as int, 2);
            lemma_fixed_digits_injective(mi as int, ts.minute as int, 2);
            lemma_fixed_digits_injective(s as int, ts.second as int, 2);
            lemma_fixed_digits_injective(n as int, ts.nanosecond as int, 9);
            lemma_fixed_digits_injective(oh as int, abs_offset(ts.offset_minutes) / 60, 2);
            lemma_fixed_digits_injective(om as int, abs_offset(ts.offset_minutes) % 60, 2);
            vstd::arithmetic::div_mod::lemma_fundamental_div_mod(
                abs_offset(ts.offset_minutes),
                60,
            );
            assert(mag == abs_offset(ts.offset_minutes));
            assert(t.offset_minutes == ts.offset_minutes);
            assert(t.date == ts.date);
        }
    }
    Some((t, i + 35))
}

/// A stored timestamp is always 35 bytes.
proof fn lemma_emit_timestamp_len(ts: Timestamp)
    ensures
        spec_emit_timestamp(ts).len() == 35,
{
    lemma_fixed_digits_len(ts.date.year as int, 4);
    lemma_fixed_digits_len(ts.date.month as int, 2);
    lemma_fixed_digits_len(ts.date.day as int, 2);
    lemma_fixed_digits_len(ts.hour as int, 2);
    lemma_fixed_digits_len(ts.minute as int, 2);
    lemma_fixed_digits_len(ts.second as int, 2);
    lemma_fixed_digits_len(ts.nanosecond as int, 9);
    lemma_fixed_digits_len(abs_offset(ts.offset_minutes) / 60, 2);
    lemma_fixed_digits_len(abs_offset(ts.offset_minutes) % 60, 2);
}

/// The bytes of `bb` at `i` spell the stored form of the topic `tv`.
pub open spec fn spec_topic_at(bb: Seq<u8>, i: int, tv: ReviewTopicView) -> bool {
    &&& tv.wf()
    &&& 0 <= i
    &&& i + spec_emit_topic(tv).len() <= bb.len()
    &&& bb.subrange(i, i + spec_emit_topic(tv).len()) == spec_emit_topic(tv)
}

/// Where each field of a stored topic lies within the input.
#[verifier::spinoff_prover]
#[verifier::rlimit(100)]
proof fn lemma_topic_segments(tv: ReviewTopicView, bb: Seq<u8>, i: int)
    requires
        spec_topic_at(bb, i, tv),
    ensures
        spec_emit_topic(tv).len() == 92 + esc(encode_utf8(tv.topic_name)).len() + encode_utf8(
            spec_tier_name(tv.next_review_gap),
        ).len(),
        bb.subrange(i, i + 15) == lit_name_key(),
        spec_escaped_at(bb, i + 15, encode_utf8(tv.topic_name)),
        bb.subrange(
            i + 16 + esc(encode_utf8(tv.topic_name)).len(),
            i + 34 + esc(encode_utf8(tv.topic_name)).len(),
        ) == lit_reviewed_key(),
        spec_ts_at(bb, i + 34 + esc(encode_utf8(tv.topic_name)).len(), tv.last_reviewed),
        bb.subrange(
            i + 69 + esc(encode_utf8(tv.topic_name)).len(),
            i + 90 + esc(encode_utf8(tv.topic_name)).len(),
        ) == lit_gap_key(),
        bb.subrange(
            i + 90 + esc(encode_utf8(tv.topic_name)).len(),
            i + 90 + esc(encode_utf8(tv.topic_name)).len() + encode_utf8(
                spec_tier_name(tv.next_review_gap),
            ).len(),
        ) == encode_utf8(spec_tier_name(tv.next_review_gap)),
        bb.subrange(
            i + 90 + esc(encode_utf8(tv.topic_name)).len() + encode_utf8(
                spec_tier_name(tv.next_review_gap),
            ).len(),
            i + 92 + esc(encode_utf8(tv.topic_name)).len() + encode_utf8(
                spec_tier_name(tv.next_review_gap),
            ).len(),
        ) == lit_close(),
{
    lemma_format_literals();
    lemma_emit_timestamp_len(tv.last_reviewed);
    let en = encode_utf8(tv.topic_name);
    let eb = esc(en).len() as int;
    let tier = encode_utf8(spec_tier_name(tv.next_review_gap));
    let tl = tier.len() as int;
    let q0 = lit_name_key();
    let q1 = q0 + esc(en);
    let q2 = q1 + seq![0x22u8];
    let q3 = q2 + lit_reviewed_key();
    let q4 = q3 + spec_emit_timestamp(tv.last_reviewed);
    let q5 = q4 + lit_gap_key();
    let q6 = q5 + tier;
    let q7 = q6 + lit_close();
    let e = spec_emit_topic(tv);
    assert(e == q7);
    assert(q1.len() == 15 + eb);
    assert(q2.len() == 16 + eb);
    assert(q3.len() == 34 + eb);
    assert(q4.len() == 69 + eb);
    assert(q5.len() == 90 + eb);
    assert(q6.len() == 90 + eb + tl);
    assert(q7.len() == 92 + eb + tl);
    assert(forall|x: int| 0 <= x < e.len() ==> #[trigger] bb[i + x] == e[x]) by {
        assert(forall|x: int| 0 <= x < e.len() ==> bb.subrange(i, i + e.len() as int)[x]
            == #[trigger] bb[i + x]);
    }
    assert forall|x: int| 0 <= x < 15 implies e[0 + x] == q0[x] by {
        assert(q7[0 + x] == q6[0 + x]);
        assert(q6[0 + x] == q5[0 + x]);
        assert(q5[0 + x] == q4[0 + x]);
        assert(q4[0 + x] == q3[0 + x]);
        assert(q3[0 + x] == q2[0 + x]);
        assert(q2[0 + x] == q1[0 + x]);
        assert(q1[0 + x] == q0[x]);
    }
    assert forall|x: int| 0 <= x < eb implies e[15 + x] == esc(en)[x] by {
        assert(q7[15 + x] == q6[15 + x]);
        assert(q6[15 + x] == q5[15 + x]);
        assert(q5[15 + x] == q4[15 + x]);
        assert(q4[15 + x] == q3[15 + x]);
        assert(q3[15 + x] == q2[15 + x]);
        assert(q2[15 + x] == q1[15 + x]);
        assert(q1[15 + x] == esc(en)[x]);
    }
    assert(e[15 + eb] == 0x22) by {
        assert(q7[15 + eb] == q6[15 + eb]);
        assert(q6[15 + eb] == q5[15 + eb]);
        assert(q5[15 + eb] == q4[15 + eb]);
        assert(q4[15 + eb] == q3[15 + eb]);
        assert(q3[15 + eb] == q2[15 + eb]);
        assert(q2[15 + eb] == 0x22);
    }
    assert forall|x: int| 0 <= x < 18 implies e[16 + eb + x] == lit_reviewed_key()[x] by {
        assert(q7[16 + eb + x] == q6[16 + eb + x]);
        assert(q6[16 + eb + x] == q5[16 + eb + x]);
        assert(q5[16 + eb + x] == q4[16 + eb + x]);
        assert(q4[16 + eb + x] == q3[16 + eb + x]);
        assert(q3[16 + eb + x] == lit_reviewed_key()[x]);
    }
    assert forall|x: int| 0 <= x < 35 implies e[34 + eb + x] == spec_emit_timestamp(
        tv.last_reviewed,
    )[x] by {
        assert(q7[34 + eb + x] == q6[34 + eb + x]);
        assert(q6[34 + eb + x] == q5[34 + eb + x]);
        assert(q5[34 + eb + x] == q4[34 + eb + x]);
        assert(q4[34 + eb + x] == spec_emit_timestamp(tv.last_reviewed)[x]);
    }
    assert forall|x: int| 0 <= x < 21 implies e[69 + eb + x] == lit_gap_key()[x] by {
        assert(q7[69 + eb + x] == q6[69 + eb + x]);
        assert(q6[69 + eb + x] == q5[69 + eb + x]);
        assert(q5[69 + eb + x] == lit_gap_key()[x]);
    }
    assert forall|x: int| 0 <= x < tl implies e[90 + eb + x] == tier[x] by {
        assert(q7[90 + eb + x] == q6[90 + eb + x]);
        assert(q6[90 + eb + x] == tier[x]);
    }
    assert forall|x: int| 0 <= x < 2 implies e[90 + eb + tl + x] == lit_close()[x] by {
        assert(q7[90 + eb + tl + x] == lit_close()[x]);
    }
    assert(bb.subrange(i, i + 15) =~= lit_name_key());
    assert(bb.subrange(i + 15, i + 15 + eb) =~= esc(en));
    assert(bb[i + 15 + eb] == 0x22);
    assert(bb.subrange(i + 16 + eb, i + 34 + eb) =~= lit_reviewed_key());
    assert(bb.subrange(i + 34 + eb, i + 69 + eb) =~= spec_emit_timestamp(tv.last_reviewed));
    assert(bb.subrange(i + 69 + eb, i + 90 + eb) =~= lit_gap_key());
    assert(bb.subrange(i + 90 + eb, i + 90 + eb + tl) =~= tier);
    assert(bb.subrange(i + 90 + eb + tl, i + 92 + eb + tl) =~= lit_close());
}

/// Read one stored topic at `i`. Whenever the input spells the stored
/// form of a topic, exactly that topic is returned.
#[verifier::spinoff_prover]
#[verifier::rlimit(100)]
fn parse_topic(b: &Vec<u8>, i: usize) -> (r: Option<(ReviewTopic, usize)>)
    ensures
        r matches Some((t, j)) ==> t@.wf() && i < j <= b@.len(),
        forall|tv: ReviewTopicView| spec_topic_at(b@, i as int, tv) ==> (r matches Some((t, j))
            && t@ == tv && j == i + spec_emit_topic(tv).len()),
{
    proof {
        lemma_format_literals();
    }
    let j1 = match expect_lit(b, i, "{\"topic_name\":\"") {
        Some(j) => j,
        None => {
            proof {
                assert forall|tv: ReviewTopicView| !spec_topic_at(b@, i as int, tv) by {
                    if spec_topic_at(b@, i as int, tv) {
                        lemma_topic_segments(tv, b@, i as int);
                    }
                }
            }
            return None;
        },
    };
    let (raw, j2) = match parse_string_raw(b, j1) {
        Some(p) => p,
        None => {
            proof {
                assert forall|tv: ReviewTopicView| !spec_topic_at(b@, i as int, tv) by {
                    if spec_topic_at(b@, i as int, tv) {
                        lemma_topic_segments(tv, b@, i as int);
                    }
                }
            }
            return None;
        },
    };
    let ghost raw_bytes = raw@;
    let name = match crate::text::bytes_to_string(raw) {
        Some(s) => s,
        None => {
            proof {
                assert forall|tv: ReviewTopicView| !spec_topic_at(b@, i as int, tv) by {
                    if spec_topic_at(b@, i as int, tv) {
                        lemma_topic_segments(tv, b@, i as int);
                        vstd::utf8::encode_utf8_valid_utf8(tv.topic_name);
                    }
                }
            }
            return None;
        },
    };
    if name.as_str().is_empty() {
        proof {
            assert forall|tv: ReviewTopicView| !spec_topic_at(b@, i as int, tv) by {
                if spec_topic_at(b@, i as int, tv) {
                    lemma_topic_segments(tv, b@, i as int);
                    lemma_bytes_of_string_roundtrip(tv.topic_name, name@);
                }
            }
        }
        return None;
    }
    let j3 = match expect_lit(b, j2, ",\"last_reviewed\":\"") {
        Some(j) => j,
        None => {
            proof {
                assert forall|tv: ReviewTopicView| !spec_topic_at(b@, i as int, tv) by {
                    if spec_topic_at(b@, i as int, tv) {
                        lemma_topic_segments(tv, b@, i as int);
                    }
                }
            }
            return None;
        },
    };
    let (ts, j4) = match parse_timestamp(b, j3) {
        Some(p) => p,
        None => {
            proof {
                assert forall|tv: ReviewTopicView| !spec_topic_at(b@, i as int, tv) by {
                    if spec_topic_at(b@, i as int, tv) {
                        lemma_topic_segments(tv, b@, i as int);
                    }
                }
            }
            return None;
        },
    };
    let j5 = match expect_lit(b, j4, "\",\"next_review_gap\":\"") {
        Some(j) => j,
        None => {
            proof {
                assert forall|tv: ReviewTopicView| !spec_topic_at(b@, i as int, tv) by {
                    if spec_topic_at(b@, i as int, tv) {
                        lemma_topic_segments(tv, b@, i as int);
                    }
                }
            }
            return None;
        },
    };
    let (g, j6) = match parse_tier(b, j5) {
        Some(p) => p,
        None => {
            proof {
                assert forall|tv: ReviewTopicView| !spec_topic_at(b@, i as int, tv) by {
                    if spec_topic_at(b@, i as int, tv) {
                        lemma_topic_segments(tv, b@, i as int);
                    }
                }
            }
            return None;
        },
    };
    let j7 = match expect_lit(b, j6, "\"}") {
        Some(j) => j,
        None => {
            proof {
                assert forall|tv: ReviewTopicView| !spec_topic_at(b@, i as int, tv) by {
                    if spec_topic_at(b@, i as int, tv) {
                        lemma_topic_segments(tv, b@, i as int);
                    }
                }
            }
            return None;
        },
    };
    let t = ReviewTopic { topic_name: name, last_reviewed: ts, next_review_gap: g };
    proof {
        assert forall|tv: ReviewTopicView| spec_topic_at(b@, i as int, tv) implies t@ == tv && j7
            == i + spec_emit_topic(tv).len() by {
            lemma_topic_segments(tv, b@, i as int);
            assert(raw_bytes == encode_utf8(tv.topic_name));
            lemma_bytes_of_string_roundtrip(tv.topic_name, name@);
            assert(t@.topic_name == tv.topic_name);
            assert(ts == tv.last_reviewed);
            assert(g == tv.next_review_gap);
        }
        assert(t@.wf());
    }
    Some((t, j7))
}

/// What remains of the stored topic list after the first `m` topics: a
/// separating comma when needed, the next topic, and the rest.
pub open spec fn spec_emit_suffix(ts: Seq<ReviewTopicView>, m: int) -> Seq<u8>
    decreases (if ts.len() >= m { ts.len() - m } else { 0int }),
{
    if m < 0 || m >= ts.len() {
        Seq::empty()
    } else {
        (if m == 0 {
            Seq::<u8>::empty()
        } else {
            seq![0x2Cu8]
        }) + spec_emit_topic(ts[m]) + spec_emit_suffix(ts, m + 1)
    }
}

/// The stored topic list splits after its first `m` topics.
proof fn lemma_emit_prefix(ts: Seq<ReviewTopicView>, m: int)
    requires
        0 <= m <= ts.len(),
    ensures
        spec_emit_topics(ts) == spec_emit_topics(ts.take(m)) + spec_emit_suffix(ts, m),
    decreases ts.len() - m,
{
    if m == ts.len() {
        assert(ts.take(m) =~= ts);
        assert(spec_emit_topics(ts.take(m)) + spec_emit_suffix(ts, m) =~= spec_emit_topics(ts));
    } else {
        lemma_emit_prefix(ts, m + 1);
        let t1 = ts.take(m + 1);
        assert(t1.drop_last() =~= ts.take(m));
        assert(t1.last() == ts[m]);
        if m == 0 {
            assert(t1 =~= seq![ts[0]]);
            assert(spec_emit_topics(t1) == spec_emit_topic(ts[0]));
            assert(spec_emit_topics(ts.take(0)) =~= Seq::<u8>::empty());
            assert(spec_emit_topics(ts.take(m)) + spec_emit_suffix(ts, m) =~= spec_emit_topics(
                t1,
            ) + spec_emit_suffix(ts, m + 1));
        } else {
            assert(spec_emit_topics(t1) == spec_emit_topics(ts.take(m)) + seq![0x2Cu8]
                + spec_emit_topic(ts[m]));
            assert(spec_emit_topics(ts.take(m)) + spec_emit_suffix(ts, m) =~= spec_emit_topics(
                t1,
            ) + spec_emit_suffix(ts, m + 1));
        }
    }
}

/// A stored topic opens with a brace and is never empty.
proof fn lemma_emit_topic_first(tv: ReviewTopicView)
    ensures
        spec_emit_topic(tv).len() >= 92,
        spec_emit_topic(tv)[0] == 0x7B,
{
    lemma_format_literals();
    lemma_emit_timestamp_len(tv.last_reviewed);
    let q0 = lit_name_key();
    let q1 = q0 + esc(encode_utf8(tv.topic_name));
    let q2 = q1 + seq![0x22u8];
    let q3 = q2 + lit_reviewed_key();
    let q4 = q3 + spec_emit_timestamp(tv.last_reviewed);
    let q5 = q4 + lit_gap_key();
    let q6 = q5 + encode_utf8(spec_tier_name(tv.next_review_gap));
    let q7 = q6 + lit_close();
    assert(spec_emit_topic(tv) == q7);
    assert(q7[0] == q6[0]);
    assert(q6[0] == q5[0]);
    assert(q5[0] == q4[0]);
    assert(q4[0] == q3[0]);
    assert(q3[0] == q2[0]);
    assert(q2[0] == q1[0]);
    assert(q1[0] == q0[0]);
}

/// The bytes of `bb` at `i0` spell the stored forms of the topics `ts`,
/// closed by the list's closing bracket.
pub open spec fn spec_topics_at(bb: Seq<u8>, i0: int, ts: Seq<ReviewTopicView>) -> bool {
    &&& crate::storage::spec_wf_topics(ts)
    &&& 0 <= i0
    &&& i0 + spec_emit_topics(ts).len() < bb.len()
    &&& bb.subrange(i0, i0 + spec_emit_topics(ts).len()) == spec_emit_topics(ts)
    &&& bb[i0 + spec_emit_topics(ts).len()] == 0x5D
}

/// The stored topic list around its topic `k`: the prefix, the
/// separator, the topic, the rest.
proof fn lemma_emit_structure(ts: Seq<ReviewTopicView>, k: int)
    requires
        0 <= k < ts.len(),
    ensures
        spec_emit_topics(ts) == spec_emit_topics(ts.take(k)) + (if k > 0 {
            seq![0x2Cu8]
        } else {
            Seq::<u8>::empty()
        }) + spec_emit_topic(ts[k]) + spec_emit_suffix(ts, k + 1),
        spec_emit_topics(ts.take(k + 1)) == spec_emit_topics(ts.take(k)) + (if k > 0 {
            seq![0x2Cu8]
        } else {
            Seq::<u8>::empty()
        }) + spec_emit_topic(ts[k]),
{
    lemma_emit_prefix(ts, k);
    let pre = spec_emit_topics(ts.take(k));
    let sep: Seq<u8> = if k > 0 {
        seq![0x2Cu8]
    } else {
        Seq::empty()
    };
    let body = spec_emit_topic(ts[k]);
    let rest = spec_emit_suffix(ts, k + 1);
    assert(spec_emit_suffix(ts, k) == (if k == 0 {
        Seq::<u8>::empty()
    } else {
        seq![0x2Cu8]
    }) + body + rest);
    assert(spec_emit_topics(ts) =~= pre + sep + body + rest);
    assert(ts.take(k + 1).drop_last() =~= ts.take(k));
    assert(ts.take(k + 1).last() == ts[k]);
    if k == 0 {
        assert(ts.take(1) =~= seq![ts[0]]);
        assert(spec_emit_topics(seq![ts[0]]) == spec_emit_topic(seq![ts[0]][0]));
        assert(seq![ts[0]][0] == ts[0]);
        assert(spec_emit_topics(ts.take(k + 1)) =~= pre + sep + body);
    } else {
        assert(spec_emit_topics(ts.take(k + 1)) == spec_emit_topics(ts.take(k)) + seq![0x2Cu8]
            + spec_emit_topic(ts[k]));
        assert(spec_emit_topics(ts.take(k + 1)) =~= pre + sep + body);
    }
}

/// Where topic `k` of a stored topic list lies within the input, and
/// which byte follows it.
#[verifier::spinoff_prover]
#[verifier::rlimit(100)]
proof fn lemma_topics_at_topic(bb: Seq<u8>, i0: int, ts: Seq<ReviewTopicView>, k: int)
    requires
        spec_topics_at(bb, i0, ts),
        0 <= k < ts.len(),
    ensures
        spec_emit_topics(ts.take(k + 1)).len() == spec_emit_topics(ts.take(k)).len() + (if k > 0 {
            1int
        } else {
            0int
        }) + spec_emit_topic(ts[k]).len(),
        spec_emit_topics(ts.take(k + 1)).len() <= spec_emit_topics(ts).len(),
        spec_topic_at(
            bb,
            i0 + spec_emit_topics(ts.take(k)).len() + (if k > 0 {
                1int
            } else {
                0int
            }),
            ts[k],
        ),
        k + 1 < ts.len() ==> bb[i0 + spec_emit_topics(ts.take(k + 1)).len()] == 0x2C,
        k + 1 == ts.len() ==> bb[i0 + spec_emit_topics(ts.take(k + 1)).len()] == 0x5D,
{
    lemma_emit_structure(ts, k);
    lemma_emit_topic_first(ts[k]);
    let e = spec_emit_topics(ts);
    let pre = spec_emit_topics(ts.take(k));
    let sep: Seq<u8> = if k > 0 {
        seq![0x2Cu8]
    } else {
        Seq::empty()
    };
    let body = spec_emit_topic(ts[k]);
    let rest = spec_emit_suffix(ts, k + 1);
    let off = pre.len() + sep.len();
    assert(forall|x: int| 0 <= x < e.len() ==> #[trigger] bb[i0 + x] == e[x]) by {
        assert(forall|x: int| 0 <= x < e.len() ==> bb.subrange(i0, i0 + e.len() as int)[x]
            == #[trigger] bb[i0 + x]);
    }
    assert forall|x: int| 0 <= x < body.len() implies e[off + x] == body[x] by {
        assert(e[off + x] == (pre + sep + body + rest)[off + x]);
        assert((pre + sep + body + rest)[off + x] == (pre + sep + body)[off + x]);
        assert((pre + sep + body)[off + x] == body[x]);
    }
    assert(bb.subrange(i0 + off, i0 + off + body.len() as int) =~= body);
    assert(ts[k].wf());
    if k + 1 < ts.len() {
        lemma_emit_structure(ts, k + 1);
        let pre1 = spec_emit_topics(ts.take(k + 1));
        assert(e == pre1 + (seq![0x2Cu8] + spec_emit_topic(ts[k + 1]) + spec_emit_suffix(
            ts,
            k + 2,
        )));
        assert(e[pre1.len() as int] == 0x2C) by {
            assert(e[pre1.len() as int] == (seq![0x2Cu8] + spec_emit_topic(ts[k + 1])
                + spec_emit_suffix(ts, k + 2))[0]);
            assert((seq![0x2Cu8] + spec_emit_topic(ts[k + 1]) + spec_emit_suffix(ts, k + 2))[0]
                == 0x2C);
        }
        lemma_emit_topic_first(ts[k + 1]);
        assert(bb[i0 + pre1.len()] == e[pre1.len() as int]);
    }
}

/// Read a stored topic list at `i0`, up to and past its closing bracket.
/// Whenever the input spells a stored topic list, exactly those topics
/// are returned.
#[verifier::spinoff_prover]
#[verifier::rlimit(100)]
fn parse_topics(b: &Vec<u8>, i0: usize) -> (r: Option<(Vec<ReviewTopic>, usize)>)
    ensures
        r matches Some((v, j)) ==> crate::storage::spec_wf_topics(spec_views(v@)) && i0 < j
            <= b@.len(),
        forall|ts: Seq<ReviewTopicView>| spec_topics_at(b@, i0 as int, ts) ==> (r matches Some(
            (v, j),
        ) && spec_views(v@) == ts && j == i0 + spec_emit_topics(ts).len() + 1),
{
    broadcast use crate::review_topics::lemma_spec_views_index;

    let blen = b.len();
    if i0 >= blen {
        return None;
    }
    let mut out: Vec<ReviewTopic> = Vec::new();
    proof {
        assert(spec_views(out@) =~= Seq::<ReviewTopicView>::empty());
    }
    if b[i0] == 0x5D {
        proof {
            assert forall|ts: Seq<ReviewTopicView>| spec_topics_at(b@, i0 as int, ts) implies
                spec_views(out@) == ts && i0 + 1 == i0 + spec_emit_topics(ts).len() + 1 by {
                if ts.len() > 0 {
                    lemma_topics_at_topic(b@, i0 as int, ts, 0);
                    lemma_emit_topic_first(ts[0]);
                    assert(spec_emit_topics(ts.take(0)) =~= Seq::<u8>::empty());
                    assert(b@.subrange(i0 as int, i0 + spec_emit_topic(ts[0]).len())[0]
                        == b@[i0 as int]);
                    assert(false);
                }
                assert(spec_emit_topics(ts) =~= Seq::<u8>::empty());
            }
        }
        return Some((out, i0 + 1));
    }
    let mut i: usize = i0;
    proof {
        assert forall|ts: Seq<ReviewTopicView>| spec_topics_at(b@, i0 as int, ts) implies {
            &&& (out@.len() as int) < ts.len()
            &&& spec_views(out@) == ts.take(out@.len() as int)
            &&& i == i0 + spec_emit_topics(ts.take(out@.len() as int)).len() + (if out@.len() > 0 {
                1int
            } else {
                0int
            })
        } by {
            if ts.len() == 0 {
                assert(spec_emit_topics(ts) =~= Seq::<u8>::empty());
                assert(b@[i0 as int] == 0x5D);
                assert(false);
            }
            assert(ts.take(0) =~= Seq::<ReviewTopicView>::empty());
            assert(spec_emit_topics(ts.take(0)) =~= Seq::<u8>::empty());
        }
    }
    loop
        invariant
            i0 <= i <= blen,
            blen == b@.len(),
            crate::storage::spec_wf_topics(spec_views(out@)),
            forall|ts: Seq<ReviewTopicView>| spec_topics_at(b@, i0 as int, ts) ==> {
                &&& (out@.len() as int) < ts.len()
                &&& spec_views(out@) == ts.take(out@.len() as int)
                &&& i == i0 + spec_emit_topics(ts.take(out@.len() as int)).len() + (if out@.len()
                    > 0 {
                    1int
                } else {
                    0int
                })
            },
        decreases blen - i,
    {
        broadcast use crate::review_topics::lemma_spec_views_index;

        let ghost k = out@.len() as int;
        let (t, j) = match parse_topic(b, i) {
            Some(p) => p,
            None => {
                proof {
                    assert forall|ts: Seq<ReviewTopicView>| !spec_topics_at(
                        b@,
                        i0 as int,
                        ts,
                    ) by {
                        if spec_topics_at(b@, i0 as int, ts) {
                            lemma_topics_at_topic(b@, i0 as int, ts, k);
                        }
                    }
                }
                return None;
            },
        };
        let ghost pre_out = spec_views(out@);
        out.push(t);
        proof {
            assert(spec_views(out@) =~= pre_out.push(t@));
            assert forall|ts: Seq<ReviewTopicView>| spec_topics_at(b@, i0 as int, ts) implies {
                &&& (out@.len() as int) <= ts.len()
                &&& spec_views(out@) == ts.take(out@.len() as int)
                &&& j == i0 + spec_emit_topics(ts.take(out@.len() as int)).len()
            } by {
                lemma_topics_at_topic(b@, i0 as int, ts, k);
                assert(t@ == ts[k]);
                assert(ts.take(k + 1).drop_last() =~= ts.take(k));
                assert(spec_views(out@) =~= ts.take(k + 1));
            }
        }
        i = j;
        if i >= blen {
            proof {
                assert forall|ts: Seq<ReviewTopicView>| !spec_topics_at(b@, i0 as int, ts) by {
                    if spec_topics_at(b@, i0 as int, ts) {
                        lemma_topics_at_topic(b@, i0 as int, ts, k);
                    }
                }
            }
            return None;
        }
        let c2 = b[i];
        if c2 == 0x5D {
            proof {
                assert forall|ts: Seq<ReviewTopicView>| spec_topics_at(b@, i0 as int, ts) implies
                    spec_views(out@) == ts && i + 1 == i0 + spec_emit_topics(ts).len() + 1 by {
                    lemma_topics_at_topic(b@, i0 as int, ts, k);
                    if k + 1 < ts.len() {
                        assert(b@[i as int] == 0x2C);
                        assert(false);
                    }
                    assert(ts.take(k + 1) =~= ts);
                }
            }
            return Some((out, i + 1));
        } else if c2 == 0x2C {
            proof {
                assert forall|ts: Seq<ReviewTopicView>| spec_topics_at(b@, i0 as int, ts) implies {
                    &&& (out@.len() as int) < ts.len()
                    &&& i + 1 == i0 + spec_emit_topics(ts.take(out@.len() as int)).len() + 1
                } by {
                    lemma_topics_at_topic(b@, i0 as int, ts, k);
                    if k + 1 == ts.len() {
                        assert(b@[i as int] == 0x5D);
                        assert(false);
                    }
                }
            }
            i = i + 1;
        } else {
            proof {
                assert forall|ts: Seq<ReviewTopicView>| !spec_topics_at(b@, i0 as int, ts) by {
                    if spec_topics_at(b@, i0 as int, ts) {
                        lemma_topics_at_topic(b@, i0 as int, ts, k);
                        if k + 1 < ts.len() {
                            assert(b@[i as int] == 0x2C);
                        } else {
                            assert(b@[i as int] == 0x5D);
                        }
                    }
                }
            }
            return None;
        }
    }
}

/// Loading failed: the saved text is not a stored topic list.
#[derive(Clone, Copy, Debug, PartialEq, Eq, Structural)]
pub enum LoadError {
    Corrupt,
}

/// Read a whole saved file back into its topic list. Exactly reproduces
/// whatever `save_topics` wrote: for every well-formed topic list `ts`,
/// an input equal to the stored form of `ts` yields exactly `ts`.
#[verifier::spinoff_prover]
#[verifier::rlimit(100)]
pub fn load_topics(b: &Vec<u8>) -> (r: Option<Vec<ReviewTopic>>)
    ensures
        r matches Some(v) ==> crate::storage::spec_wf_topics(spec_views(v@)),
        forall|ts: Seq<ReviewTopicView>|
            crate::storage::spec_wf_topics(ts) && b@ == spec_save(ts) ==> (r matches Some(v)
                && spec_views(v@) == ts),
{
    proof {
        lemma_list_head_len();
    }
    let ghost head = encode_utf8("{\"review_topic_list\":["@);
    proof {
        assert forall|ts: Seq<ReviewTopicView>|
            crate::storage::spec_wf_topics(ts) && b@ == spec_save(ts) implies {
            &&& b@.len() == 24 + spec_emit_topics(ts).len()
            &&& b@.subrange(0, 22) == head
            &&& spec_topics_at(b@, 22, ts)
            &&& b@[b@.len() - 1] == 0x7D
        } by {
            let body = spec_emit_topics(ts);
            assert(b@ == head + body + seq![0x5Du8, 0x7Du8]);
            assert(forall|x: int| 0 <= x < b@.len() ==> #[trigger] b@[x] == (head + body + seq![
                0x5Du8, 0x7Du8])[x]);
            assert(b@.subrange(0, 22) =~= head);
            assert forall|x: int| 0 <= x < body.len() implies b@[22 + x] == body[x] by {
                assert(b@[22 + x] == (head + body + seq![0x5Du8, 0x7Du8])[22 + x]);
                assert((head + body + seq![0x5Du8, 0x7Du8])[22 + x] == (head + body)[22 + x]);
            }
            assert(b@.subrange(22, 22 + body.len() as int) =~= body);
            assert(b@[22 + body.len() as int] == (head + body + seq![0x5Du8, 0x7Du8])[22 + body.len() as int]);
            assert((head + body + seq![0x5Du8, 0x7Du8])[22 + body.len() as int] == seq![0x5Du8, 0x7Du8][0]);
            assert(b@[23 + body.len() as int] == (head + body + seq![0x5Du8, 0x7Du8])[23 + body.len() as int]);
            assert((head + body + seq![0x5Du8, 0x7Du8])[23 + body.len() as int] == seq![0x5Du8, 0x7Du8][1]);
        }
    }
    let j1 = match expect_lit(b, 0, "{\"review_topic_list\":[") {
        Some(j) => j,
        None => {
            return None;
        },
    };
    let (v, j2) = match parse_topics(b, j1) {
        Some(p) => p,
        None => {
            return None;
        },
    };
    if j2 >= b.len() {
        return None;
    }
    if !(b[j2] == 0x7D && j2 + 1 == b.len()) {
        return None;
    }
    Some(v)
}

/// The length of the record's opening literal.
proof fn lemma_list_head_len()
    ensures
        encode_utf8("{\"review_topic_list\":["@).len() == 22,
{
    broadcast use vstd::utf8::is_ascii_chars_encode_utf8;

    reveal_strlit("{\"review_topic_list\":[");
    assert(vstd::utf8::is_ascii_chars("{\"review_topic_list\":["@));
}

impl crate::storage::Storage {
    /// The bytes that persist this collection: the stored form of its
    /// topic list.
    pub fn save_bytes(&self) -> (r: Vec<u8>)
        requires
            crate::storage::spec_wf_topics(self@.topics),
        ensures
            r@ == spec_save(self@.topics),
    {
        save_topics(&self.review_topic_list)
    }
}

/// Whether a prior save was found: the reader hands over the saved bytes
/// when the file could be read, and nothing otherwise.
pub fn find_previous_storage(content: &Option<Vec<u8>>) -> (r: bool)
    ensures
        r == (content is Some),
{
    content.is_some()
}

/// Build the collection persisted at `file_path` from what the reader
/// found there: no saved bytes give the empty collection, bytes written
/// by `save_bytes` give back exactly the collection they persisted, and
/// anything else is corrupt.
pub fn load_storage(file_path: String, content: Option<&Vec<u8>>) -> (r: Result<
    crate::storage::Storage,
    LoadError,
>)
    ensures
        content is None ==> (r matches Ok(s) && s@.topics.len() == 0 && s@.path == file_path@),
        content matches Some(bytes) ==> {
            &&& r matches Ok(s) ==> s@.path == file_path@ && crate::storage::spec_wf_topics(
                s@.topics,
            ) && (forall|ts: Seq<ReviewTopicView>|
                crate::storage::spec_wf_topics(ts) && bytes@ == spec_save(ts) ==> s@.topics == ts)
            &&& r matches Err(e) ==> e == LoadError::Corrupt && (forall|
                ts: Seq<ReviewTopicView>,
            |
                crate::storage::spec_wf_topics(ts) ==> bytes@ != spec_save(ts))
        },
{
    match content {
        None => {
            let s = crate::storage::Storage::new(
                crate::storage::PreviousStorage::No,
                Some(file_path),
            );
            Ok(s)
        },
        Some(bytes) => {
            match load_topics(bytes) {
                None => Err(LoadError::Corrupt),
                Some(list) => {
                    let mut s = crate::storage::Storage::new(
                        crate::storage::PreviousStorage::No,
                        Some(file_path),
                    );
                    s.set_review_topic_list(list);
                    Ok(s)
                },
            }
        },
    }
}

} // verus!
