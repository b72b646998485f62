//! What the checksum is, and what it is good for.
use crate::checksum_transform::{
    checksum, fletcher32, law_checksum_bytes_round_trip, number, sum_of_sums, word, word_count,
    word_sum, ChecksumPacketDataTransform,
};
use crate::error::TransformError;
use crate::transform::PacketDataTransform;
use vstd::prelude::*;

verus! {

/// The sums of data and of longer data that begins with it.
proof fn lemma_sums_of_prefix(short: Seq<u8>, long: Seq<u8>, n: nat)
    requires
        short.len() <= long.len(),
        long.take(short.len() as int) == short,
        2 * n <= short.len(),
    ensures
        word_sum(long, n) == word_sum(short, n),
        sum_of_sums(long, n) == sum_of_sums(short, n),
    decreases n,
{
    if n > 0 {
        lemma_sums_of_prefix(short, long, (n - 1) as nat);
        let i = n - 1;
        assert(short[2 * i] == long[2 * i]);
        assert(short[2 * i + 1] == long[2 * i + 1]);
        assert(word(long, i as nat) == word(short, i as nat));
    }
}

/// The two halves of a checksum.
proof fn lemma_halves(data: Seq<u8>)
    ensures
        checksum(data) % 65536 == word_sum(data, word_count(data)) % 65535,
        checksum(data) / 65536 == sum_of_sums(data, word_count(data)) % 65535,
{
}

/// The remainder of a sum is that of the sum of the remainders.
proof fn lemma_remainders(a: nat, b: nat, w: nat)
    ensures
        (a + w) % 65535 == (a % 65535 + w) % 65535,
        (b + (a + w)) % 65535 == (b % 65535 + a % 65535 + w) % 65535,
{
}

/// One more word, or one more byte at the end, which is the low half of a word, is
/// added to the low half of the checksum, and the sum to the high half, both modulo
/// 65535. The checksum of nothing is 0.
pub proof fn law_checksum_adds_word_by_word(short: &[u8], s: u32, long: &[u8], l: u32)
    requires
        call_ensures(fletcher32, (short,), s),
        call_ensures(fletcher32, (long,), l),
        short@.len() % 2 == 0,
        long@.len() == short@.len() + 1 || long@.len() == short@.len() + 2,
        long@.take(short@.len() as int) == short@,
    ensures
        ({
            let n = short@.len() as int;
            let w = long@[n] + (if long@.len() == n + 2 {
                256 * long@[n + 1]
            } else {
                0
            });
            &&& l % 65536 == (s % 65536 + w) % 65535
            &&& l / 65536 == (s / 65536 + s % 65536 + w) % 65535
        }),
        short@.len() == 0 ==> s == 0,
{
    let n = word_count(short@);
    let w = word(long@, n);
    assert(2 * n == short@.len());
    assert(word_count(long@) == n + 1);
    lemma_sums_of_prefix(short@, long@, n);
    lemma_halves(short@);
    lemma_halves(long@);
    let a = word_sum(short@, n);
    let b = sum_of_sums(short@, n);
    assert(word_sum(long@, n + 1) == a + w);
    assert(sum_of_sums(long@, n + 1) == b + (a + w));
    lemma_remainders(a, b, w);
}

/// The sum of the first `m` words, word `i` times `k - i`.
spec fn weighted(data: Seq<u8>, m: nat, k: int) -> int
    decreases m,
{
    if m == 0 {
        0
    } else {
        weighted(data, (m - 1) as nat, k) + (k - (m - 1)) * word(data, (m - 1) as nat)
    }
}

proof fn lemma_weight_grows(data: Seq<u8>, m: nat, k: int)
    ensures
        weighted(data, m, k + 1) == weighted(data, m, k) + word_sum(data, m),
    decreases m,
{
    if m > 0 {
        lemma_weight_grows(data, (m - 1) as nat, k);
        let w = word(data, (m - 1) as nat) as int;
        assert((k + 1 - (m - 1)) * w == (k - (m - 1)) * w + w) by (nonlinear_arith);
    }
}

proof fn lemma_weighted(data: Seq<u8>, n: nat)
    ensures
        sum_of_sums(data, n) == weighted(data, n, n as int),
    decreases n,
{
    if n > 0 {
        lemma_weighted(data, (n - 1) as nat);
        lemma_weight_grows(data, (n - 1) as nat, n - 1);
        let w = word(data, (n - 1) as nat) as int;
        assert((n - (n - 1)) * w == w) by (nonlinear_arith);
    }
}

proof fn lemma_weighted_fold(
    data: Seq<u8>,
    terms: Seq<int>,
    m: nat,
    k: int,
    plus: spec_fn(int, int) -> int,
)
    requires
        terms.len() == m,
        forall|i: int| 0 <= i < m ==> #[trigger] terms[i] == (k - i) * word(data, i as nat),
        forall|a: int, b: int| #[trigger] plus(a, b) == a + b,
    ensures
        terms.fold_left(0, plus) == weighted(data, m, k),
    decreases m,
{
    if m > 0 {
        lemma_weighted_fold(data, terms.drop_last(), (m - 1) as nat, k, plus);
    }
}

/// The high half of the checksum of `n` words is the sum of the words, each taken as
/// often as there are words from it on, modulo 65535.
pub proof fn law_checksum_weighs_words(
    data: &[u8],
    c: u32,
    terms: Seq<int>,
    plus: spec_fn(int, int) -> int,
)
    requires
        call_ensures(fletcher32, (data,), c),
        terms.len() == (data@.len() + 1) / 2,
        forall|i: int|
            0 <= i < terms.len() ==> #[trigger] terms[i] == (terms.len() - i) * (data@[2 * i] + (
            if 2 * i + 1 < data@.len() {
                256 * data@[2 * i + 1]
            } else {
                0
            })),
        forall|a: int, b: int| #[trigger] plus(a, b) == a + b,
    ensures
        c / 65536 == terms.fold_left(0, plus) % 65535,
{
    let n = word_count(data@);
    lemma_halves(data@);
    lemma_weighted(data@, n);
    assert forall|i: int| 0 <= i < n implies #[trigger] terms[i] == (n - i) * word(
        data@,
        i as nat,
    ) by {}
    lemma_weighted_fold(data@, terms, n, n as int, plus);
}

/// The sums of data in which two words next to each other have changed places.
proof fn lemma_sums_of_exchanged(data: Seq<u8>, other: Seq<u8>, i: int, n: nat)
    requires
        other.len() == data.len(),
        0 <= i && 2 * i + 3 < data.len(),
        forall|j: int|
            0 <= j < data.len() && !(2 * i <= j < 2 * i + 4) ==> #[trigger] other[j] == data[j],
        other[2 * i] == data[2 * i + 2],
        other[2 * i + 1] == data[2 * i + 3],
        other[2 * i + 2] == data[2 * i],
        other[2 * i + 3] == data[2 * i + 1],
        n <= word_count(data),
    ensures
        n != i + 1 ==> word_sum(other, n) == word_sum(data, n),
        n == i + 1 ==> word_sum(other, n) - word_sum(data, n) == word(data, (i + 1) as nat)
            - word(data, i as nat),
        n <= i ==> sum_of_sums(other, n) == sum_of_sums(data, n),
        n > i ==> sum_of_sums(other, n) - sum_of_sums(data, n) == word(data, (i + 1) as nat)
            - word(data, i as nat),
    decreases n,
{
    if n > 0 {
        lemma_sums_of_exchanged(data, other, i, (n - 1) as nat);
        let j: int = n - 1;
        assert(2 * j < data.len());
        if j != i && j != i + 1 {
            assert(other[2 * j] == data[2 * j]);
            if 2 * j + 1 < data.len() {
                assert(other[2 * j + 1] == data[2 * j + 1]);
            }
            assert(word(other, j as nat) == word(data, j as nat));
        } else if j == i {
            assert(word(other, j as nat) == word(data, (i + 1) as nat));
        } else {
            assert(word(other, j as nat) == word(data, i as nat));
        }
    }
}

/// Two words next to each other that change places change the checksum, wherever they
/// stand, unless they are the same modulo 65535.
pub proof fn law_exchanged_words_are_noticed(
    data: &[u8],
    c: u32,
    other: &[u8],
    d: u32,
    i: int,
)
    requires
        call_ensures(fletcher32, (data,), c),
        call_ensures(fletcher32, (other,), d),
        other@.len() == data@.len(),
        0 <= i && 2 * i + 3 < data@.len(),
        forall|j: int|
            0 <= j < data@.len() && !(2 * i <= j < 2 * i + 4) ==> #[trigger] other@[j] == data@[j],
        other@[2 * i] == data@[2 * i + 2],
        other@[2 * i + 1] == data@[2 * i + 3],
        other@[2 * i + 2] == data@[2 * i],
        other@[2 * i + 3] == data@[2 * i + 1],
        (data@[2 * i] + 256 * data@[2 * i + 1] - data@[2 * i + 2] - 256 * data@[2 * i + 3])
            % 65535 != 0,
    ensures
        c != d,
        c % 65536 == d % 65536,
{
    let n = word_count(data@);
    lemma_halves(data@);
    lemma_halves(other@);
    lemma_sums_of_exchanged(data@, other@, i, n);
    let x = sum_of_sums(data@, n) as int;
    let y = sum_of_sums(other@, n) as int;
    lemma_not_same(x, y);
}

proof fn lemma_not_same(x: int, y: int)
    requires
        (x - y) % 65535 != 0,
    ensures
        x % 65535 != y % 65535,
{
}

/// A message is the checksum of the payload in four bytes, lowest first, and then the
/// payload.
pub proof fn law_checksum_stands_in_front(
    t: &mut ChecksumPacketDataTransform,
    payload: &[u8],
    r: Result<Vec<u8>, TransformError>,
    c: u32,
)
    requires
        call_ensures(
            <ChecksumPacketDataTransform as PacketDataTransform>::write_message,
            (t, payload),
            r,
        ),
        call_ensures(fletcher32, (payload,), c),
    ensures
        r matches Ok(msg) && msg@.len() == payload@.len() + 4 && msg@[0] + 256 * msg@[1] + 65536
            * msg@[2] + 16777216 * msg@[3] == c && msg@.skip(4) == payload@,
{
    law_checksum_bytes_round_trip(payload@, payload@);
    assert(r->Ok_0@.skip(4) =~= payload@);
    assert(number(r->Ok_0@) == c);
}

/// A message is accepted exactly if its first four bytes are the checksum of the
/// others, which are then the payload. Otherwise both checksums are reported; and a
/// message of less than four bytes has none.
pub proof fn law_checksum_is_compared(
    t: &mut ChecksumPacketDataTransform,
    msg: &[u8],
    r: Result<Vec<u8>, TransformError>,
    data: &[u8],
    c: u32,
)
    requires
        call_ensures(
            <ChecksumPacketDataTransform as PacketDataTransform>::read_payload,
            (t, msg),
            r,
        ),
        msg@.len() >= 4 ==> data@ == msg@.skip(4),
        call_ensures(fletcher32, (data,), c),
    ensures
        msg@.len() < 4 ==> r matches Err(TransformError::ChecksumMissing),
        msg@.len() >= 4 ==> ({
            let received = msg@[0] + 256 * msg@[1] + 65536 * msg@[2] + 16777216 * msg@[3];
            if received == c {
                r matches Ok(payload) && payload@ == msg@.skip(4)
            } else {
                r matches Err(TransformError::ChecksumMismatch { computed, received: said })
                    && computed == c && said == received
            }
        }),
{
}

} // verus!
