//! What a payment holds: target, recipient, amount and memo.

use vstd::prelude::*;
use vstd::utf8::{encode_scalar, encode_utf8};
use crate::config::Config;
use crate::decimal::{decimal, is_digit, law_decimal_is_injective};
use crate::decimal::{lemma_decimal_reads_back, to_decimal};
use crate::text::{from_chars, has_prefix, has_suffix, to_chars};

verus! {

/// The most bytes that a memo has.
pub const MEMO_MAX_BYTES: usize = 256;

/// How many bytes a character takes in UTF-8.
pub open spec fn char_bytes(c: char) -> nat {
    let n = c as u32;
    if n < 0x80 {
        1
    } else if n < 0x800 {
        2
    } else if n < 0x10000 {
        3
    } else {
        4
    }
}

/// How many bytes a text takes in UTF-8.
pub open spec fn byte_len(s: Seq<char>) -> nat
    decreases s.len(),
{
    if s.len() == 0 {
        0
    } else {
        byte_len(s.drop_last()) + char_bytes(s.last())
    }
}

/// The longest start of `s` that takes at most `max` bytes.
pub open spec fn cap_bytes(s: Seq<char>, max: nat) -> Seq<char>
    decreases s.len(),
{
    if byte_len(s) <= max {
        s
    } else {
        cap_bytes(s.drop_last(), max)
    }
}

/// The memo before it is cut: the base, and the seed and the number of the payment.
pub open spec fn full_memo(base: Seq<char>, seed: nat, seq: nat) -> Seq<char> {
    let start = if base.len() == 0 {
        base
    } else {
        base + "|"@
    };
    start + "seed="@ + decimal(seed) + "|seq="@ + decimal(seq)
}

/// The memo of a payment.
pub open spec fn memo_of(base: Seq<char>, seed: nat, seq: nat) -> Seq<char> {
    cap_bytes(full_memo(base, seed, seq), MEMO_MAX_BYTES as nat)
}

/// The memo of payment number `seq`. Deterministic and stable; capped to 256 bytes,
/// at the boundary of a character.
pub fn build_memo(base: &str, seed: u64, seq: u64) -> (memo: String)
    ensures
        memo@ == memo_of(base@, seed as nat, seq as nat),
{
    let mut s = base.to_owned();
    if !base.is_empty() {
        s.append("|");
    }
    s.append("seed=");
    s.append(to_decimal(seed as u128).as_str());
    s.append("|seq=");
    s.append(to_decimal(seq as u128).as_str());
    capped(s.as_str(), MEMO_MAX_BYTES)
}

fn width(c: char) -> (w: usize)
    ensures
        w == char_bytes(c),
        1 <= w <= 4,
{
    let n: u32 = c as u32;
    if n < 0x80 {
        1
    } else if n < 0x800 {
        2
    } else if n < 0x10000 {
        3
    } else {
        4
    }
}

fn capped(s: &str, max: usize) -> (t: String)
    ensures
        t@ == cap_bytes(s@, max as nat),
{
    let chars = to_chars(s);
    let mut used: usize = 0;
    let mut n: usize = 0;
    assert(s@.take(0) =~= Seq::<char>::empty());
    while n < chars.len()
        invariant
            chars@ == s@,
            n <= chars.len(),
            used == byte_len(s@.take(n as int)),
            used <= max,
        decreases chars.len() - n,
    {
        let w: usize = width(chars[n]);
        assert(s@.take(n + 1).drop_last() =~= s@.take(n as int));
        if w > max - used {
            proof {
                lemma_cap_at(s@, max as nat, n as int);
            }
            let t = from_chars(chars.as_slice(), 0, n);
            assert(s@.subrange(0, n as int) =~= s@.take(n as int));
            return t;
        }
        used = used + w;
        n = n + 1;
    }
    assert(s@.take(s@.len() as int) =~= s@);
    s.to_owned()
}

proof fn lemma_bytes_grow(s: Seq<char>, m: int, n: int)
    requires
        0 <= m <= n <= s.len(),
    ensures
        byte_len(s.take(m)) + (n - m) <= byte_len(s.take(n)),
    decreases n - m,
{
    if m < n {
        lemma_bytes_grow(s, m, n - 1);
        assert(s.take(n).drop_last() =~= s.take(n - 1));
    }
}

/// Where `n` characters fit and one more does not, the cut keeps `n`.
proof fn lemma_cap_at(s: Seq<char>, max: nat, n: int)
    requires
        0 <= n < s.len(),
        byte_len(s.take(n)) <= max,
        byte_len(s.take(n + 1)) > max,
    ensures
        cap_bytes(s, max) == s.take(n),
    decreases s.len(),
{
    lemma_bytes_grow(s, n + 1, s.len() as int);
    assert(s.take(s.len() as int) =~= s);
    let t = s.drop_last();
    if n == t.len() {
        assert(t =~= s.take(n));
        assert(cap_bytes(t, max) == t);
    } else {
        assert(t.take(n) =~= s.take(n));
        assert(t.take(n + 1) =~= s.take(n + 1));
        lemma_cap_at(t, max, n);
    }
}

/// `byte_len` is the length of the UTF-8 encoding.
pub proof fn lemma_byte_len_is_utf8(s: Seq<char>)
    ensures
        byte_len(s) == encode_utf8(s).len(),
    decreases s.len(),
{
    if s.len() > 0 {
        lemma_byte_len_is_utf8(s.drop_first());
        lemma_byte_len_first(s);
        lemma_scalar_bytes(s[0]);
    }
}

proof fn lemma_scalar_bytes(c: char)
    ensures
        encode_scalar(c as u32).len() == char_bytes(c),
{
}

proof fn lemma_byte_len_first(s: Seq<char>)
    requires
        s.len() > 0,
    ensures
        byte_len(s) == char_bytes(s[0]) + byte_len(s.drop_first()),
    decreases s.len(),
{
    if s.len() == 1 {
        assert(s.drop_last() =~= Seq::<char>::empty());
        assert(s.drop_first() =~= Seq::<char>::empty());
        assert(byte_len(s.drop_last()) == 0);
    } else {
        lemma_byte_len_first(s.drop_last());
        assert(s.drop_last().drop_first() =~= s.drop_first().drop_last());
    }
}

/// A memo takes at most 256 bytes, and is the start of the uncut memo. A memo that
/// fits is not cut, and a cut one lacks no character that would have fitted.
pub proof fn law_memo_is_capped(base: Seq<char>, seed: nat, seq: nat)
    ensures
        ({
            let full = full_memo(base, seed, seq);
            let memo = memo_of(base, seed, seq);
            &&& encode_utf8(memo).len() <= MEMO_MAX_BYTES
            &&& memo.len() <= full.len()
            &&& memo == full.take(memo.len() as int)
            &&& encode_utf8(full).len() <= MEMO_MAX_BYTES ==> memo == full
            &&& memo.len() < full.len() ==> encode_utf8(full.take(memo.len() as int + 1)).len()
                > MEMO_MAX_BYTES
        }),
{
    let full = full_memo(base, seed, seq);
    let memo = memo_of(base, seed, seq);
    lemma_cap_is_prefix(full, MEMO_MAX_BYTES as nat);
    lemma_byte_len_is_utf8(full);
    lemma_byte_len_is_utf8(memo);
    lemma_byte_len_is_utf8(full.take(memo.len() as int + 1));
}

proof fn lemma_cap_is_prefix(s: Seq<char>, max: nat)
    ensures
        ({
            let t = cap_bytes(s, max);
            &&& byte_len(t) <= max
            &&& t.len() <= s.len()
            &&& t == s.take(t.len() as int)
            &&& t.len() < s.len() ==> byte_len(s.take(t.len() as int + 1)) > max
        }),
    decreases s.len(),
{
    let t = cap_bytes(s, max);
    if byte_len(s) <= max {
        assert(s.take(s.len() as int) =~= s);
    } else {
        let u = s.drop_last();
        lemma_cap_is_prefix(u, max);
        assert(t =~= s.take(t.len() as int));
        if t.len() < u.len() {
            assert(u.take(t.len() as int + 1) =~= s.take(t.len() as int + 1));
        } else {
            assert(s.take(t.len() as int + 1) =~= s);
        }
    }
}

/// An uncut memo gives away the seed and the number of the payment, so two payments of
/// a ramp step never share one.
pub proof fn law_memo_tells_payments_apart(
    base: Seq<char>,
    seed1: nat,
    seq1: nat,
    seed2: nat,
    seq2: nat,
)
    requires
        full_memo(base, seed1, seq1) == full_memo(base, seed2, seq2),
    ensures
        seed1 == seed2,
        seq1 == seq2,
{
    reveal_strlit("seed=");
    reveal_strlit("|seq=");
    let start = if base.len() == 0 {
        base
    } else {
        base + "|"@
    };
    let k = start.len() + 5;
    let a = full_memo(base, seed1, seq1);
    let rest1 = decimal(seed1) + "|seq="@ + decimal(seq1);
    let rest2 = decimal(seed2) + "|seq="@ + decimal(seq2);
    assert(a.skip(k as int) =~= rest1);
    assert(full_memo(base, seed2, seq2).skip(k as int) =~= rest2);
    assert(rest1 == rest2);
    lemma_decimal_reads_back(seed1);
    lemma_decimal_reads_back(seed2);
    let n1 = decimal(seed1).len() as int;
    let n2 = decimal(seed2).len() as int;
    assert(rest1[n1] == '|');
    assert(rest2[n2] == '|');
    if n1 < n2 {
        assert(is_digit(decimal(seed2)[n1]));
        assert(rest2[n1] == decimal(seed2)[n1]);
    }
    if n2 < n1 {
        assert(is_digit(decimal(seed1)[n2]));
        assert(rest1[n2] == decimal(seed1)[n2]);
    }
    assert(rest1.take(n1) =~= decimal(seed1));
    assert(rest2.take(n1) =~= decimal(seed2));
    assert(rest1.skip(n1 + 5) =~= decimal(seq1));
    assert(rest2.skip(n1 + 5) =~= decimal(seq2));
    law_decimal_is_injective(seed1, seed2);
    law_decimal_is_injective(seq1, seq2);
}

/// The body of a payment request.
#[derive(Debug)]
pub struct PaymentBody {
    pub from: String,
    pub to: String,
    pub amount: u128,
    pub fee: u128,
    pub signing_key: String,
    pub memo: String,
}

/// One payment, and the base URL that it goes to.
#[derive(Debug)]
pub struct PaymentRequest {
    pub base_url: String,
    pub body: PaymentBody,
}

/// What the payments of a run have in common.
#[derive(Debug)]
pub struct PaymentPlan {
    pub rpc_urls: Vec<String>,
    pub recipients: Vec<String>,
    pub seed: u64,
    pub memo_base: String,
    pub from: String,
    pub signing_key: String,
    pub amount_atomic: u128,
    pub fee_atomic: u128,
}

/// Where the round robins of a run stand, and the number of the next payment of
/// the ramp step.
#[derive(Debug, Clone, Copy, PartialEq, Eq, Structural)]
pub struct PaymentCursor {
    pub url_idx: usize,
    pub to_idx: usize,
    pub seq: u64,
}

/// The index after `i`; the largest one is followed by zero.
pub open spec fn next_index(i: usize) -> usize {
    if i == usize::MAX {
        0
    } else {
        (i + 1) as usize
    }
}

/// The item whose turn it is at an index that goes on and on.
pub open spec fn in_turn(items: Seq<String>, idx: usize) -> Seq<char> {
    items[idx as int % items.len() as int]@
}

/// Takes the items in turn.
pub fn choose_round_robin(items: &[String], idx: &mut usize) -> (item: String)
    requires
        items@.len() > 0,
    ensures
        item@ == in_turn(items@, *old(idx)),
        *final(idx) == next_index(*old(idx)),
{
    let i: usize = *idx;
    *idx = if i == usize::MAX {
        0
    } else {
        i + 1
    };
    let k: usize = i % items.len();
    items[k].clone()
}

impl PaymentPlan {
    /// There is a URL to send to and a recipient to pay.
    pub open spec fn wf(&self) -> bool {
        self.rpc_urls@.len() > 0 && self.recipients@.len() > 0
    }

    /// The payments that a configuration asks for.
    pub open spec fn of(config: Config, recipients: Vec<String>) -> PaymentPlan {
        PaymentPlan {
            rpc_urls: config.target.rpc_urls,
            recipients,
            seed: config.scenario.seed,
            memo_base: config.scenario.memo,
            from: config.payment.from,
            signing_key: config.payment.signing_key,
            amount_atomic: config.payment.amount_atomic,
            fee_atomic: config.payment.fee_atomic,
        }
    }

    /// `r` is the payment that is due where the cursor stands: to the next URL, for the
    /// next recipient, with the memo of the next number.
    pub open spec fn is_payment(&self, cursor: PaymentCursor, r: PaymentRequest) -> bool {
        &&& r.base_url@ == in_turn(self.rpc_urls@, cursor.url_idx)
        &&& r.body.to@ == in_turn(self.recipients@, cursor.to_idx)
        &&& r.body.memo@ == memo_of(self.memo_base@, self.seed as nat, cursor.seq as nat)
        &&& r.body.from@ == self.from@
        &&& r.body.signing_key@ == self.signing_key@
        &&& r.body.amount == self.amount_atomic
        &&& r.body.fee == self.fee_atomic
    }

    /// The next payment, which moves the cursor on.
    pub fn next_payment(&self, cursor: &mut PaymentCursor) -> (r: PaymentRequest)
        requires
            self.wf(),
        ensures
            self.is_payment(*old(cursor), r),
            *final(cursor) == old(cursor).after_payment(),
    {
        let base_url = choose_round_robin(self.rpc_urls.as_slice(), &mut cursor.url_idx);
        let to = choose_round_robin(self.recipients.as_slice(), &mut cursor.to_idx);
        let memo = build_memo(self.memo_base.as_str(), self.seed, cursor.seq);
        cursor.seq = cursor.seq.saturating_add(1);
        PaymentRequest {
            base_url,
            body: PaymentBody {
                from: self.from.clone(),
                to,
                amount: self.amount_atomic,
                fee: self.fee_atomic,
                signing_key: self.signing_key.clone(),
                memo,
            },
        }
    }
}

impl PaymentCursor {
    /// The cursor after one more payment.
    pub open spec fn after_payment(&self) -> PaymentCursor {
        PaymentCursor {
            url_idx: next_index(self.url_idx),
            to_idx: next_index(self.to_idx),
            seq: if self.seq == u64::MAX {
                u64::MAX
            } else {
                (self.seq + 1) as u64
            },
        }
    }

    /// The cursor at the start of a run.
    pub fn new() -> (c: PaymentCursor)
        ensures
            c == (PaymentCursor { url_idx: 0, to_idx: 0, seq: 0 }),
    {
        PaymentCursor { url_idx: 0, to_idx: 0, seq: 0 }
    }

    /// Starts a ramp step: payments are numbered from zero in each, and the round
    /// robins go on where they stand.
    pub fn start_step(&mut self)
        ensures
            *final(self) == (PaymentCursor { seq: 0, ..*old(self) }),
    {
        self.seq = 0;
    }
}

/// The index after `k` picks that start at `i`.
pub open spec fn index_after(i: usize, k: nat) -> usize
    decreases k,
{
    if k == 0 {
        i
    } else {
        next_index(index_after(i, (k - 1) as nat))
    }
}

/// A round robin is fair: of as many picks in a row as there are items, from
/// wherever it stands, exactly one takes a given item. (Unless its index starts
/// over at zero on the way.)
pub proof fn law_round_robin_is_fair(start: usize, len: nat, item: nat)
    requires
        item < len,
        start + len <= usize::MAX,
    ensures
        exists|k: nat| k < len && #[trigger] index_after(start, k) as nat % len == item,
        forall|j: nat, k: nat|
            j < len && k < len && #[trigger] index_after(start, j) as nat % len == item
                && #[trigger] index_after(start, k) as nat % len == item ==> j == k,
{
    let at = start as nat % len;
    let k: nat = if item >= at {
        (item - at) as nat
    } else {
        (item + len - at) as nat
    };
    lemma_turn(start as nat, k, len);
    lemma_index_after(start, k);
    assert(index_after(start, k) as nat % len == item);
    assert forall|i: nat, j: nat|
        i < len && j < len && #[trigger] index_after(start, i) as nat % len == item
            && #[trigger] index_after(start, j) as nat % len == item implies i == j by {
        lemma_index_after(start, i);
        lemma_index_after(start, j);
        lemma_turn(start as nat, i, len);
        lemma_turn(start as nat, j, len);
    }
}

proof fn lemma_index_after(start: usize, k: nat)
    requires
        start + k <= usize::MAX,
    ensures
        index_after(start, k) == start + k,
    decreases k,
{
    if k > 0 {
        lemma_index_after(start, (k - 1) as nat);
    }
}

proof fn lemma_turn(start: nat, k: nat, len: nat)
    requires
        k < len,
    ensures
        (start + k) % len == (if start % len + k < len {
            (start % len + k) as int
        } else {
            start % len + k - len
        }),
{
    vstd::arithmetic::div_mod::lemma_fundamental_div_mod(start as int, len as int);
    let q = start as int / len as int;
    let r = start as int % len as int;
    if r + k < len {
        assert(start + k == q * len + (r + k)) by (nonlinear_arith)
            requires
                start == len * q + r,
        ;
        vstd::arithmetic::div_mod::lemma_fundamental_div_mod_converse(
            (start + k) as int,
            len as int,
            q,
            r + k,
        );
    } else {
        assert(start + k == (q + 1) * len + (r + k - len)) by (nonlinear_arith)
            requires
                start == len * q + r,
        ;
        vstd::arithmetic::div_mod::lemma_fundamental_div_mod_converse(
            (start + k) as int,
            len as int,
            q + 1,
            r + k - len,
        );
    }
}

/// The cursor after `k` payments.
pub open spec fn cursor_after(cursor: PaymentCursor, k: nat) -> PaymentCursor
    decreases k,
{
    if k == 0 {
        cursor
    } else {
        cursor_after(cursor, (k - 1) as nat).after_payment()
    }
}

/// Every item has its turn at its own index, and again each time all others had theirs.
pub proof fn law_turns_come_again(items: Seq<String>, idx: usize)
    requires
        items.len() > 0,
    ensures
        idx < items.len() ==> in_turn(items, idx) == items[idx as int]@,
        idx + items.len() <= usize::MAX ==> in_turn(items, (idx + items.len()) as usize)
            == in_turn(items, idx),
{
    if idx < items.len() {
        vstd::arithmetic::div_mod::lemma_small_mod(idx as nat, items.len());
    }
    vstd::arithmetic::div_mod::lemma_mod_add_multiples_vanish(idx as int, items.len() as int);
}

/// The payments of a ramp step go round: payment `k` of a step goes to the `k`th URL and
/// recipient from where the round robins stood, counted round and round, and has the number
/// `k` in its memo. It is made of what the configuration says, and of nothing else.
pub proof fn law_payments_go_round(
    config: Config,
    recipients: Vec<String>,
    url_idx: usize,
    to_idx: usize,
    k: nat,
    r: PaymentRequest,
)
    requires
        config.target.rpc_urls@.len() > 0,
        recipients@.len() > 0,
        url_idx + k <= usize::MAX,
        to_idx + k <= usize::MAX,
        k <= u64::MAX,
        PaymentPlan::of(config, recipients).is_payment(
            cursor_after((PaymentCursor { url_idx, to_idx, seq: 0 }), k),
            r,
        ),
    ensures
        r.base_url@ == config.target.rpc_urls@[(url_idx + k) % (
        config.target.rpc_urls@.len() as int)]@,
        r.body.to@ == recipients@[(to_idx + k) % (recipients@.len() as int)]@,
        r.body.memo@ == memo_of(config.scenario.memo@, config.scenario.seed as nat, k),
        r.body.from@ == config.payment.from@,
        r.body.signing_key@ == config.payment.signing_key@,
        r.body.amount == config.payment.amount_atomic,
        r.body.fee == config.payment.fee_atomic,
{
    lemma_cursor_after(url_idx, to_idx, k);
}

proof fn lemma_cursor_after(url_idx: usize, to_idx: usize, k: nat)
    requires
        url_idx + k <= usize::MAX,
        to_idx + k <= usize::MAX,
        k <= u64::MAX,
    ensures
        ({
            let c = cursor_after((PaymentCursor { url_idx, to_idx, seq: 0 }), k);
            c.url_idx == url_idx + k && c.to_idx == to_idx + k && c.seq == k
        }),
    decreases k,
{
    if k > 0 {
        lemma_cursor_after(url_idx, to_idx, (k - 1) as nat);
    }
}

/// The number of a payment stays at the largest once it got there.
pub proof fn law_numbers_stay_at_the_largest(cursor: PaymentCursor)
    ensures
        cursor.seq == u64::MAX ==> cursor.after_payment().seq == u64::MAX,
        cursor.seq < u64::MAX ==> cursor.after_payment().seq == cursor.seq + 1,
{
}

/// Two payments in a row never go to the same URL or recipient where there is another,
/// and the index behind the largest one is zero.
pub proof fn law_next_index_is_another(i: usize, len: nat)
    requires
        len > 1,
    ensures
        i < usize::MAX ==> next_index(i) == i + 1,
        i < usize::MAX ==> next_index(i) as nat % len != i as nat % len,
        next_index(usize::MAX) == 0,
{
    if i < usize::MAX {
        lemma_turn(i as nat, 1, len);
    }
}

/// An uncut memo is the base, if there is one, and what tells the payment: it starts with
/// the one and ends with the other, and the base gives nothing else away.
pub proof fn law_memo_holds_its_parts(base: Seq<char>, seed: nat, seq: nat)
    ensures
        ({
            let memo = full_memo(base, seed, seq);
            let number = "seed="@ + decimal(seed) + "|seq="@ + decimal(seq);
            &&& has_prefix(memo, base)
            &&& has_suffix(memo, number)
            &&& base.len() == 0 ==> memo == number
            &&& base.len() > 0 ==> memo.len() == base.len() + 1 + number.len()
                && memo[base.len() as int] == '|'
        }),
{
    reveal_strlit("|");
    let memo = full_memo(base, seed, seq);
    let number = "seed="@ + decimal(seed) + "|seq="@ + decimal(seq);
    let start = if base.len() == 0 {
        base
    } else {
        base + "|"@
    };
    assert(memo =~= start + number);
    assert(memo.take(base.len() as int) =~= base);
    assert(memo.skip(memo.len() - number.len()) =~= number);
}

/// Starts of a text never take more bytes than the text, and a character takes one to four
/// of them: so every memo of up to 64 characters is kept whole.
pub proof fn law_short_memos_are_kept(base: Seq<char>, seed: nat, seq: nat)
    requires
        full_memo(base, seed, seq).len() <= 64,
    ensures
        memo_of(base, seed, seq) == full_memo(base, seed, seq),
{
    lemma_at_most_four_bytes(full_memo(base, seed, seq));
}

proof fn lemma_at_most_four_bytes(s: Seq<char>)
    ensures
        s.len() <= byte_len(s) <= 4 * s.len(),
    decreases s.len(),
{
    if s.len() > 0 {
        lemma_at_most_four_bytes(s.drop_last());
    }
}

} // verus!
