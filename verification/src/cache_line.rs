//! The lines of the instruction cache: which sizes they have, where they
//! begin, and which of them hold the bytes of a range of addresses.

use vstd::prelude::*;

verus! {

/// The sizes that an instruction-cache line can have: the powers of two from
/// 4 bytes, one instruction, to `4 << 15` bytes.
pub open spec fn is_line_size(size: int) -> bool {
    ||| size == 4
    ||| size == 8
    ||| size == 16
    ||| size == 32
    ||| size == 64
    ||| size == 128
    ||| size == 256
    ||| size == 512
    ||| size == 1024
    ||| size == 2048
    ||| size == 4096
    ||| size == 8192
    ||| size == 16384
    ||| size == 32768
    ||| size == 65536
    ||| size == 131072
}

/// The smallest instruction-cache line size that a value of the cache-geometry
/// register stands for: its low four bits are the binary logarithm of the
/// size in words.
pub open spec fn decoded_line_size(geometry: usize) -> usize {
    4usize << (geometry & 0xF)
}

/// How many line sizes are smaller than `limit`.
pub open spec fn line_sizes_below(limit: int) -> int {
    if limit <= 4 {
        0
    } else if limit <= 8 {
        1
    } else if limit <= 16 {
        2
    } else if limit <= 32 {
        3
    } else if limit <= 64 {
        4
    } else if limit <= 128 {
        5
    } else if limit <= 256 {
        6
    } else if limit <= 512 {
        7
    } else if limit <= 1024 {
        8
    } else if limit <= 2048 {
        9
    } else if limit <= 4096 {
        10
    } else if limit <= 8192 {
        11
    } else if limit <= 16384 {
        12
    } else if limit <= 32768 {
        13
    } else if limit <= 65536 {
        14
    } else if limit <= 131072 {
        15
    } else {
        16
    }
}

/// The address of the first byte of the line of `size` bytes that holds `address`.
pub open spec fn line_start(address: int, size: int) -> int {
    address - address % size
}

/// Whether two addresses lie in one line of `size` bytes.
pub open spec fn same_line(a: int, b: int, size: int) -> bool {
    a / size == b / size
}

/// The number of lines of `size` bytes that hold a byte of `[start, end)`.
pub open spec fn line_count(start: int, end: int, size: int) -> int {
    if start < end {
        (end - 1) / size - start / size + 1
    } else {
        0
    }
}

/// The start addresses, in ascending order, of the lines of `size` bytes that
/// hold a byte of `[start, end)`.
pub open spec fn line_addresses(start: int, end: int, size: int) -> Seq<int> {
    Seq::new(line_count(start, end, size) as nat, |k: int| (start / size + k) * size)
}

/// Whether one of `hits` lies in the line of `size` bytes that holds `address`.
pub open spec fn line_hit(hits: Seq<int>, address: int, size: int) -> bool {
    exists|i: int| 0 <= i < hits.len() && same_line(#[trigger] hits[i], address, size)
}

/// Whether every byte of `[start, end)` lies in a line of `size` bytes that
/// one of `hits` lies in too.
pub open spec fn covers(hits: Seq<int>, start: int, end: int, size: int) -> bool {
    forall|address: int| start <= address < end ==> #[trigger] line_hit(hits, address, size)
}

/// Decodes a value read from the cache-geometry register.
pub fn line_size(geometry: usize) -> (size: usize)
    ensures
        size == decoded_line_size(geometry),
        is_line_size(size as int),
{
    let field: usize = geometry & 0xF;
    proof {
        lemma_decoded_line_size(geometry);
    }
    assert(field < 16) by (bit_vector)
        requires
            field == geometry & 0xF,
    ;
    4usize << field
}

/// Rounds `address` down to the start of its line.
pub fn align_down(address: usize, size: usize) -> (aligned: usize)
    requires
        is_line_size(size as int),
    ensures
        aligned == line_start(address as int, size as int),
{
    proof {
        lemma_mask_rounds_down(address);
    }
    address & !(size - 1)
}

/// Every value of the register stands for a line size.
pub proof fn lemma_decoded_line_size(geometry: usize)
    ensures
        is_line_size(decoded_line_size(geometry) as int),
{
    assert(is_line_size((4usize << (geometry & 0xF)) as int)) by (bit_vector);
}

/// Clearing the low bits of an address takes it to the start of its line.
proof fn lemma_mask_rounds_down(address: usize)
    ensures
        forall|size: usize|
            is_line_size(size as int) ==> address & !((size - 1) as usize) == line_start(
                address as int,
                size as int,
            ),
{
    assert(address & !3usize == address - address % 4) by (bit_vector);
    assert(address & !7usize == address - address % 8) by (bit_vector);
    assert(address & !15usize == address - address % 16) by (bit_vector);
    assert(address & !31usize == address - address % 32) by (bit_vector);
    assert(address & !63usize == address - address % 64) by (bit_vector);
    assert(address & !127usize == address - address % 128) by (bit_vector);
    assert(address & !255usize == address - address % 256) by (bit_vector);
    assert(address & !511usize == address - address % 512) by (bit_vector);
    assert(address & !1023usize == address - address % 1024) by (bit_vector);
    assert(address & !2047usize == address - address % 2048) by (bit_vector);
    assert(address & !4095usize == address - address % 4096) by (bit_vector);
    assert(address & !8191usize == address - address % 8192) by (bit_vector);
    assert(address & !16383usize == address - address % 16384) by (bit_vector);
    assert(address & !32767usize == address - address % 32768) by (bit_vector);
    assert(address & !65535usize == address - address % 65536) by (bit_vector);
    assert(address & !131071usize == address - address % 131072) by (bit_vector);
}

/// A quotient is known from the multiples of the divisor on either side.
proof fn lemma_quotient_between(x: int, q: int, size: int)
    requires
        size > 0,
        q * size <= x < (q + 1) * size,
    ensures
        x / size == q,
{
    assert((q + 1) * size == q * size + size) by (nonlinear_arith);
    vstd::arithmetic::div_mod::lemma_fundamental_div_mod_converse(x, size, q, x - q * size);
}

/// The start of a line is the multiple of the line size at or below the address.
pub proof fn lemma_line_start(address: int, size: int)
    requires
        size > 0,
    ensures
        line_start(address, size) == (address / size) * size,
        line_start(address, size) % size == 0,
        line_start(address, size) <= address < line_start(address, size) + size,
        same_line(line_start(address, size), address, size),
{
    vstd::arithmetic::div_mod::lemma_fundamental_div_mod(address, size);
    vstd::arithmetic::div_mod::lemma_mod_bound(address, size);
    let q = address / size;
    assert(size * q == q * size) by (nonlinear_arith);
    assert((q + 1) * size == q * size + size) by (nonlinear_arith);
    lemma_quotient_between(q * size, q, size);
    vstd::arithmetic::div_mod::lemma_fundamental_div_mod(q * size, size);
    assert(size * q + (q * size) % size == q * size);
}

/// Of two line sizes the larger is a multiple of the smaller.
proof fn lemma_line_sizes_divide(fine: int, coarse: int) -> (times: int)
    requires
        is_line_size(fine),
        is_line_size(coarse),
        fine <= coarse,
    ensures
        coarse == fine * times,
        times > 0,
    decreases coarse - fine,
{
    if fine == coarse {
        assert(coarse == fine * 1);
        1
    } else {
        let half = lemma_line_sizes_divide(2 * fine, coarse);
        assert((2 * fine) * half == fine * (2 * half)) by (nonlinear_arith);
        2 * half
    }
}

/// A range of addresses has a byte in at least one line, and in no more
/// lines than its length over the line size and two: one for the division
/// that rounds down, and one for a range that begins or ends within a line.
pub proof fn lemma_line_count_bound(start: int, end: int, size: int)
    requires
        size > 0,
        start < end,
    ensures
        1 <= line_count(start, end, size) <= (end - start - 1) / size + 2,
        line_count(start, end, size) <= (end - start) / size + 2,
{
    let first = start / size;
    let last = (end - 1) / size;
    let between = end - 1 - start;
    vstd::arithmetic::div_mod::lemma_div_is_ordered(start, end - 1, size);
    vstd::arithmetic::div_mod::lemma_fundamental_div_mod(end - 1, size);
    vstd::arithmetic::div_mod::lemma_mod_bound(end - 1, size);
    vstd::arithmetic::div_mod::lemma_fundamental_div_mod(start, size);
    vstd::arithmetic::div_mod::lemma_mod_bound(start, size);
    vstd::arithmetic::div_mod::lemma_fundamental_div_mod(between, size);
    vstd::arithmetic::div_mod::lemma_mod_bound(between, size);
    assert(last - first <= between / size + 1) by (nonlinear_arith)
        requires
            end - 1 == size * last + (end - 1) % size,
            start == size * first + start % size,
            between == end - 1 - start,
            between == size * (between / size) + between % size,
            0 <= (end - 1) % size < size,
            0 <= start % size < size,
            0 <= between % size < size,
            size > 0,
    ;
    vstd::arithmetic::div_mod::lemma_div_is_ordered(between, end - start, size);
}

/// The lines up to and with the line at `next` are the lines before it and
/// that line.
pub(crate) proof fn lemma_pass_step(start: int, next: int, end: int, size: int)
    requires
        size > 0,
        0 <= start < end,
        next % size == 0,
        line_start(start, size) <= next < end <= next + size,
    ensures
        line_addresses(start, end, size) == line_addresses(start, next, size).push(next),
{
    lemma_line_start(start, size);
    vstd::arithmetic::div_mod::lemma_fundamental_div_mod(next, size);
    let j = next / size;
    let f = start / size;
    assert(size * j == j * size) by (nonlinear_arith);
    assert(next == j * size);
    assert((j + 1) * size == j * size + size) by (nonlinear_arith);
    assert((j - 1 + 1) * size == j * size) by (nonlinear_arith);
    assert((j - 1) * size == j * size - size) by (nonlinear_arith);
    assert(f <= j) by (nonlinear_arith)
        requires
            f * size <= j * size,
            size > 0,
    ;
    lemma_quotient_between(end - 1, j, size);
    assert(line_count(start, end, size) == j - f + 1);
    if start < next {
        lemma_quotient_between(next - 1, j - 1, size);
    } else {
        assert(f == j) by (nonlinear_arith)
            requires
                f * size <= j * size,
                j * size <= start < f * size + size,
                size > 0,
        ;
    }
    assert(line_count(start, next, size) == j - f);
    assert((f + (j - f)) * size == next);
    assert(line_addresses(start, end, size) =~= line_addresses(start, next, size).push(next));
}

/// The lines that a pass has left from the line at `next` on: at least that
/// line, no more than the bound, and one fewer behind each line.
pub(crate) proof fn lemma_lines_left(start: int, next: int, end: int, size: int)
    requires
        size >= 4,
        0 <= start < end,
        next % size == 0,
        line_start(start, size) <= next < end,
    ensures
        1 <= line_count(next, end, size) <= (end - start) / 4 + 2,
        next + size < end ==> line_count(next + size, end, size) == line_count(next, end, size)
            - 1,
        next + size >= end ==> line_count(next, end, size) == 1,
{
    lemma_line_start(start, size);
    let j = next / size;
    let f = start / size;
    let last = (end - 1) / size;
    vstd::arithmetic::div_mod::lemma_fundamental_div_mod(next, size);
    vstd::arithmetic::div_mod::lemma_fundamental_div_mod(end - 1, size);
    vstd::arithmetic::div_mod::lemma_mod_bound(end - 1, size);
    vstd::arithmetic::div_mod::lemma_fundamental_div_mod(start, size);
    vstd::arithmetic::div_mod::lemma_mod_bound(start, size);
    assert(size * j == j * size) by (nonlinear_arith);
    assert((j + 1) * size == j * size + size) by (nonlinear_arith);
    assert((j + 2) * size == j * size + size + size) by (nonlinear_arith);
    vstd::arithmetic::div_mod::lemma_div_is_ordered(next, end - 1, size);
    assert(f <= j) by (nonlinear_arith)
        requires
            f * size <= j * size,
            size > 0,
    ;
    lemma_quotient_between(next + size, j + 1, size);
    if next + size >= end {
        lemma_quotient_between(end - 1, j, size);
    }
    // the lines between two addresses are no more than the words between them
    let between = end - 1 - start;
    vstd::arithmetic::div_mod::lemma_fundamental_div_mod(between, size);
    vstd::arithmetic::div_mod::lemma_mod_bound(between, size);
    assert(last - f <= between / size + 1) by (nonlinear_arith)
        requires
            end - 1 == size * last + (end - 1) % size,
            start == size * f + start % size,
            between == end - 1 - start,
            between == size * (between / size) + between % size,
            0 <= (end - 1) % size < size,
            0 <= start % size < size,
            0 <= between % size < size,
            size > 0,
    ;
    vstd::arithmetic::div_mod::lemma_div_is_ordered_by_denominator(between, 4, size);
    vstd::arithmetic::div_mod::lemma_div_is_ordered(between, end - start, 4);
}

/// One pass by lines of `size` bytes hits the line of every byte of the range.
pub(crate) proof fn lemma_pass_covers(start: int, end: int, size: int)
    requires
        size > 0,
    ensures
        covers(line_addresses(start, end, size), start, end, size),
{
    let hits = line_addresses(start, end, size);
    assert forall|address: int| start <= address < end implies #[trigger] line_hit(
        hits,
        address,
        size,
    ) by {
        let q = address / size;
        let f = start / size;
        vstd::arithmetic::div_mod::lemma_div_is_ordered(start, address, size);
        vstd::arithmetic::div_mod::lemma_div_is_ordered(address, end - 1, size);
        let k = q - f;
        assert(0 <= k < hits.len());
        assert(hits[k] == q * size);
        assert((q + 1) * size == q * size + size) by (nonlinear_arith);
        lemma_quotient_between(q * size, q, size);
        assert(same_line(hits[k], address, size));
    }
}

/// What is hit stays hit when more addresses come before or behind.
pub(crate) proof fn lemma_covers_within(
    before: Seq<int>,
    hits: Seq<int>,
    behind: Seq<int>,
    start: int,
    end: int,
    size: int,
)
    requires
        covers(hits, start, end, size),
    ensures
        covers(before + hits + behind, start, end, size),
{
    let all = before + hits + behind;
    assert forall|address: int| start <= address < end implies #[trigger] line_hit(
        all,
        address,
        size,
    ) by {
        assert(line_hit(hits, address, size));
        let i = choose|i: int| 0 <= i < hits.len() && same_line(#[trigger] hits[i], address, size);
        assert(all[before.len() + i] == hits[i]);
    }
}

/// Two addresses in one line are in one line of any multiple of its size.
proof fn lemma_same_line_coarser(a: int, b: int, fine: int, times: int)
    requires
        fine > 0,
        times > 0,
        same_line(a, b, fine),
    ensures
        same_line(a, b, fine * times),
{
    let q = a / fine;
    let group = q / times;
    vstd::arithmetic::div_mod::lemma_fundamental_div_mod(a, fine);
    vstd::arithmetic::div_mod::lemma_mod_bound(a, fine);
    vstd::arithmetic::div_mod::lemma_fundamental_div_mod(b, fine);
    vstd::arithmetic::div_mod::lemma_mod_bound(b, fine);
    vstd::arithmetic::div_mod::lemma_fundamental_div_mod(q, times);
    vstd::arithmetic::div_mod::lemma_mod_bound(q, times);
    let r = q % times;
    assert(q == times * group + r);
    assert(group * (fine * times) <= fine * q) by (nonlinear_arith)
        requires
            q == times * group + r,
            0 <= r,
            fine > 0,
    ;
    assert(fine * q + fine <= (group + 1) * (fine * times)) by (nonlinear_arith)
        requires
            q == times * group + r,
            r < times,
            fine > 0,
    ;
    assert(fine * times > 0) by (nonlinear_arith)
        requires
            fine > 0,
            times > 0,
    ;
    lemma_quotient_between(a, group, fine * times);
    lemma_quotient_between(b, group, fine * times);
}

/// What was hit by the lines of one size was hit by those of every larger size.
pub(crate) proof fn lemma_covers_coarser(hits: Seq<int>, start: int, end: int, fine: int, coarse: int)
    requires
        is_line_size(fine),
        is_line_size(coarse),
        fine <= coarse,
        covers(hits, start, end, fine),
    ensures
        covers(hits, start, end, coarse),
{
    let times = lemma_line_sizes_divide(fine, coarse);
    assert forall|address: int| start <= address < end implies #[trigger] line_hit(
        hits,
        address,
        coarse,
    ) by {
        assert(line_hit(hits, address, fine));
        let i = choose|i: int| 0 <= i < hits.len() && same_line(#[trigger] hits[i], address, fine);
        lemma_same_line_coarser(hits[i], address, fine, times);
    }
}

/// For a range of one to four bytes, the one invalidation of the short path,
/// at the start of the word that holds the first byte, hits the line of every
/// byte of the range exactly if the range lies within one line. It then hits
/// every line that a pass by lines of `size` bytes would invalidate. A
/// range that runs over the end of a line, which takes a first byte that is
/// not at the start of a word, has its last bytes in a line that the short
/// path leaves alone.
pub proof fn lemma_short_path(start: int, len: int, size: int)
    requires
        0 <= start,
        1 <= len <= 4,
        is_line_size(size),
    ensures
        covers(seq![line_start(start, 4)], start, start + len, size) <==> start % size + len
            <= size,
        start % size + len <= size ==> forall|k: int|
            0 <= k < line_addresses(start, start + len, size).len() ==> same_line(
                line_start(start, 4),
                #[trigger] line_addresses(start, start + len, size)[k],
                size,
            ),
{
    let word = line_start(start, 4);
    let hits = seq![word];
    let q = start / size;
    let times = lemma_line_sizes_divide(4, size);
    vstd::arithmetic::div_mod::lemma_mod_mod(start, 4, times);
    vstd::arithmetic::div_mod::lemma_fundamental_div_mod(start, size);
    vstd::arithmetic::div_mod::lemma_mod_bound(start, size);
    vstd::arithmetic::div_mod::lemma_mod_bound(start % size, 4);
    vstd::arithmetic::div_mod::lemma_fundamental_div_mod(start % size, 4);
    assert(size * q == q * size) by (nonlinear_arith);
    assert((q + 1) * size == q * size + size) by (nonlinear_arith);
    assert(start % 4 <= start % size) by (nonlinear_arith)
        requires
            start % size == 4 * ((start % size) / 4) + start % 4,
            0 <= start % size,
            0 <= start % 4 < 4,
    ;
    lemma_quotient_between(word, q, size);
    if start % size + len <= size {
        assert forall|address: int| start <= address < start + len implies #[trigger] line_hit(
            hits,
            address,
            size,
        ) by {
            lemma_quotient_between(address, q, size);
            assert(same_line(hits[0], address, size));
        }
        lemma_quotient_between(start + len - 1, q, size);
        assert forall|k: int|
            0 <= k < line_addresses(start, start + len, size).len() implies same_line(
            word,
            #[trigger] line_addresses(start, start + len, size)[k],
            size,
        ) by {
            assert(k == 0);
            lemma_quotient_between(q * size, q, size);
        }
    } else {
        let last = start + len - 1;
        assert((q + 2) * size == q * size + size + size) by (nonlinear_arith);
        lemma_quotient_between(last, q + 1, size);
        assert(!line_hit(hits, last, size));
    }
}

} // verus!
