//! MStar upgrade images: detection by their U-Boot script, and the parts
//! that the script's `filepartload` commands load, with their destination
//! and compression.

use vstd::prelude::*;
use crate::error::UnixtractError;
use crate::pfl_upg::until_nul;
use crate::text::{
    chars_of, char_range, is_whitespace, lossy_string, spec_is_whitespace, spec_split, spec_trim,
    split_char, starts_with, string_from_chars, trim, utf8_lossy, views,
};

verus! {

// ---------------------------------------------------------------------------
// Words and numbers

/// The words of `s.take(i)` (runs of characters that are not white space):
/// the completed words and the word still open at `i`.
pub open spec fn words_state(s: Seq<char>, i: nat) -> (Seq<Seq<char>>, Seq<char>)
    decreases i,
{
    if i == 0 || i > s.len() {
        (Seq::empty(), Seq::empty())
    } else {
        let (done, cur) = words_state(s, (i - 1) as nat);
        if spec_is_whitespace(s[i - 1]) {
            if cur.len() > 0 {
                (done.push(cur), Seq::empty())
            } else {
                (done, Seq::empty())
            }
        } else {
            (done, cur.push(s[i - 1]))
        }
    }
}

/// The words of `s` (`str::split_whitespace`).
pub open spec fn spec_words(s: Seq<char>) -> Seq<Seq<char>> {
    let (done, cur) = words_state(s, s.len());
    if cur.len() > 0 {
        done.push(cur)
    } else {
        done
    }
}

/// Splits `s` into its words.
pub fn split_whitespace(s: &[char]) -> (r: Vec<Vec<char>>)
    ensures
        views(r@) == spec_words(s@),
{
    let mut done: Vec<Vec<char>> = Vec::new();
    let mut cur: Vec<char> = Vec::new();
    let mut i: usize = 0;
    while i < s.len()
        invariant
            i <= s@.len(),
            words_state(s@, i as nat) == (views(done@), cur@),
        decreases s@.len() - i,
    {
        if is_whitespace(s[i]) {
            if cur.len() > 0 {
                let piece = cur;
                cur = Vec::new();
                let ghost d0 = done@;
                done.push(piece);
                assert(views(done@) =~= views(d0).push(piece@));
            } else {
                cur = Vec::new();
            }
        } else {
            cur.push(s[i]);
        }
        i += 1;
    }
    if cur.len() > 0 {
        let ghost d0 = done@;
        let last = cur;
        done.push(last);
        assert(views(done@) =~= views(d0).push(last@));
    }
    done
}

/// The value of a digit character, in any base up to 16.
pub open spec fn digit_value(c: char) -> Option<nat> {
    if '0' <= c && c <= '9' {
        Some((c as nat - '0' as nat) as nat)
    } else if 'a' <= c && c <= 'f' {
        Some((c as nat - 'a' as nat + 10) as nat)
    } else if 'A' <= c && c <= 'F' {
        Some((c as nat - 'A' as nat + 10) as nat)
    } else {
        None
    }
}

/// The value of the digits `s` in `base`, or `None` when some character
/// is no digit of that base.
pub open spec fn digits_value(s: Seq<char>, base: nat) -> Option<nat>
    decreases s.len(),
{
    if s.len() == 0 {
        Some(0)
    } else {
        match (digits_value(s.drop_last(), base), digit_value(s.last())) {
            (Some(v), Some(d)) => if d < base {
                Some(v * base + d)
            } else {
                None
            },
            _ => None,
        }
    }
}

/// A number of a script: hexadecimal after `0x` or `0X`, decimal
/// otherwise; `None` when there are no digits, a character is no digit,
/// or the value does not fit in 64 bits.
pub open spec fn spec_parse_number(s: Seq<char>) -> Option<u64> {
    let hex = s.len() >= 2 && s[0] == '0' && (s[1] == 'x' || s[1] == 'X');
    let digits = if hex { s.skip(2) } else { s };
    let base: nat = if hex { 16 } else { 10 };
    if digits.len() == 0 {
        None
    } else {
        match digits_value(digits, base) {
            Some(v) => if v <= u64::MAX {
                Some(v as u64)
            } else {
                None
            },
            None => None,
        }
    }
}

fn digit_of(c: char) -> (r: Option<u64>)
    ensures
        match digit_value(c) {
            Some(d) => r == Some(d as u64),
            None => r is None,
        },
{
    if '0' <= c && c <= '9' {
        Some((c as u32 - '0' as u32) as u64)
    } else if 'a' <= c && c <= 'f' {
        Some((c as u32 - 'a' as u32 + 10) as u64)
    } else if 'A' <= c && c <= 'F' {
        Some((c as u32 - 'A' as u32 + 10) as u64)
    } else {
        None
    }
}

proof fn lemma_digits_grow(s: Seq<char>, base: nat, k: int)
    requires
        base >= 2,
        0 <= k <= s.len(),
        digits_value(s.take(k), base) is None,
    ensures
        digits_value(s, base) is None,
    decreases s.len() - k,
{
    if k < s.len() {
        assert(s.take(k + 1).drop_last() =~= s.take(k));
        lemma_digits_grow(s, base, k + 1);
    } else {
        assert(s.take(k) =~= s);
    }
}

proof fn lemma_digits_big(s: Seq<char>, base: nat, k: int, v: nat)
    requires
        base >= 2,
        0 <= k <= s.len(),
        digits_value(s.take(k), base) == Some(v),
        v > u64::MAX,
    ensures
        digits_value(s, base) matches Some(w) ==> w > u64::MAX,
    decreases s.len() - k,
{
    if k < s.len() {
        assert(s.take(k + 1).drop_last() =~= s.take(k));
        match digits_value(s.take(k + 1), base) {
            Some(w) => {
                assert(w >= v) by (nonlinear_arith)
                    requires
                        w >= v * base,
                        base >= 2,
                ;
                lemma_digits_big(s, base, k + 1, w);
            },
            None => {
                lemma_digits_grow(s, base, k + 1);
            },
        }
    } else {
        assert(s.take(k) =~= s);
    }
}

/// Parses a number of a script.
pub fn parse_number(s: &[char]) -> (r: Option<u64>)
    ensures
        r == spec_parse_number(s@),
{
    let hex = s.len() >= 2 && s[0] == '0' && (s[1] == 'x' || s[1] == 'X');
    let start: usize = if hex {
        2
    } else {
        0
    };
    let base: u64 = if hex {
        16
    } else {
        10
    };
    let ghost digits = s@.skip(start as int);
    assert(!hex ==> digits =~= s@);
    if s.len() == start {
        assert(digits.len() == 0);
        return None;
    }
    let mut v: u64 = 0;
    let mut i: usize = start;
    while i < s.len()
        invariant
            start <= i <= s@.len(),
            start < s@.len(),
            hex == (s@.len() >= 2 && s@[0] == '0' && (s@[1] == 'x' || s@[1] == 'X')),
            start == (if hex { 2usize } else { 0usize }),
            base == (if hex { 16u64 } else { 10u64 }),
            digits == s@.skip(start as int),
            digits == (if hex { s@.skip(2) } else { s@ }),
            digits_value(digits.take(i - start), base as nat) == Some(v as nat),
        decreases s@.len() - i,
    {
        let ghost k = (i - start) as int;
        assert(digits.take(k + 1).drop_last() =~= digits.take(k));
        assert(digits.take(k + 1).last() == s@[i as int]);
        let d = match digit_of(s[i]) {
            Some(d) => d,
            None => {
                proof {
                    lemma_digits_grow(digits, base as nat, k + 1);
                }
                return None;
            },
        };
        if d >= base {
            proof {
                lemma_digits_grow(digits, base as nat, k + 1);
            }
            return None;
        }
        let limit: u64 = (u64::MAX - d) / base;
        if v > limit {
            proof {
                assert(v * base + d > u64::MAX) by (nonlinear_arith)
                    requires
                        v > limit,
                        limit == (u64::MAX - d) / (base as int),
                        base > 0,
                        d < base,
                ;
                lemma_digits_big(digits, base as nat, k + 1, (v * base + d) as nat);
            }
            return None;
        }
        assert(v * base + d <= u64::MAX) by (nonlinear_arith)
            requires
                v <= limit,
                limit == (u64::MAX - d) / (base as int),
                base > 0,
                d <= u64::MAX,
        ;
        v = v * base + d;
        i += 1;
    }
    assert(digits.take(i - start) =~= digits);
    Some(v)
}

// ---------------------------------------------------------------------------
// Detection and the script text

/// `needle` occurs in `hay`.
pub open spec fn contains_chars(hay: Seq<char>, needle: Seq<char>) -> bool {
    exists|i: int| 0 <= i && i + needle.len() <= hay.len() && #[trigger] hay.subrange(
        i,
        i + needle.len(),
    ) == needle
}

fn find_chars(hay: &[char], needle: &[char]) -> (r: bool)
    ensures
        r == contains_chars(hay@, needle@),
{
    let n = needle.len();
    if n == 0 {
        assert(hay@.subrange(0int, 0int + needle@.len()) =~= needle@);
        return true;
    }
    if n > hay.len() {
        assert(!contains_chars(hay@, needle@));
        return false;
    }
    let mut i: usize = 0;
    while i <= hay.len() - n
        invariant
            n == needle@.len(),
            0 < n <= hay@.len(),
            i <= hay@.len() - n + 1,
            forall|j: int| 0 <= j < i ==> #[trigger] hay@.subrange(j, j + n) != needle@,
        decreases hay@.len() - n + 1 - i,
    {
        let w = char_range(hay, i, i + n);
        if crate::text::chars_eq(w.as_slice(), needle) {
            return true;
        }
        i += 1;
    }
    false
}

/// An MStar image: the lossy text of its first 32 KiB mentions
/// `filepartload`.
pub open spec fn spec_is_mstar(header: Seq<u8>) -> bool {
    contains_chars(utf8_lossy(header), "filepartload"@)
}

/// Detects an MStar image from its first 32 KiB `header`.
pub fn is_mstar_file(header: &[u8]) -> (r: bool)
    ensures
        r == spec_is_mstar(header@),
{
    let text = lossy_string(header);
    let cs = chars_of(text.as_str());
    let needle = chars_of("filepartload");
    find_chars(cs.as_slice(), needle.as_slice())
}

/// The bytes of `b` before its first `0x00` or `0xFF`.
pub open spec fn until_terminator(b: Seq<u8>) -> Seq<u8>
    decreases b.len(),
{
    if b.len() == 0 {
        b
    } else if until_terminator(b.drop_last()).len() < b.len() - 1 {
        until_terminator(b.drop_last())
    } else if b.last() == 0 || b.last() == 0xFF {
        b.drop_last()
    } else {
        b
    }
}

/// The script held in `raw`: the bytes before the first `0x00` or `0xFF`,
/// decoded as lossy UTF-8.
pub fn script_text(raw: &[u8]) -> (r: String)
    ensures
        r@ == utf8_lossy(until_terminator(raw@)),
{
    let mut i: usize = 0;
    while i < raw.len() && raw[i] != 0 && raw[i] != 0xFF
        invariant
            i <= raw@.len(),
            until_terminator(raw@.take(i as int)) == raw@.take(i as int),
        decreases raw@.len() - i,
    {
        assert(raw@.take(i + 1).drop_last() =~= raw@.take(i as int));
        i += 1;
    }
    proof {
        lemma_terminator_prefix(raw@, i as int);
    }
    let head = crate::bytes::copy_range(raw, 0, i);
    assert(head@ =~= raw@.take(i as int));
    lossy_string(head.as_slice())
}

proof fn lemma_terminator_prefix(b: Seq<u8>, i: int)
    requires
        0 <= i <= b.len(),
        until_terminator(b.take(i)) == b.take(i),
        i < b.len() ==> b[i] == 0 || b[i] == 0xFF,
    ensures
        until_terminator(b) == b.take(i),
    decreases b.len() - i,
{
    if i < b.len() {
        assert(b.take(i + 1).drop_last() =~= b.take(i));
        lemma_terminator_extend(b, i + 1, i);
    } else {
        assert(b.take(i) =~= b);
    }
}

proof fn lemma_terminator_extend(b: Seq<u8>, k: int, i: int)
    requires
        0 <= i < k <= b.len(),
        until_terminator(b.take(k)) == b.take(i),
    ensures
        until_terminator(b) == b.take(i),
    decreases b.len() - k,
{
    if k < b.len() {
        assert(b.take(k + 1).drop_last() =~= b.take(k));
        lemma_terminator_extend(b, k + 1, i);
    } else {
        assert(b.take(k) =~= b);
    }
}

// ---------------------------------------------------------------------------
// The script

/// How a loaded part is stored.
#[derive(Debug, Clone, Copy, PartialEq, Eq, Structural)]
pub enum CompressionType {
    Stored,
    Lzma,
    DoubleLzma,
    Lz4,
    Lzo,
    Sparse,
}

/// The lines of a script, each with surrounding white space removed.
pub open spec fn script_lines(text: Seq<char>) -> Seq<Seq<char>> {
    spec_split(text, '\n').map_values(|l: Seq<char>| spec_trim(l))
}

/// What the lines after a `filepartload` say of its part so far: the
/// destination (`unknown` until a line names one), the compression and the
/// size that an LZ4 part decompresses to.
pub ghost struct BlockState {
    pub name: Seq<char>,
    pub compr: CompressionType,
    pub lz4_size: u64,
}

/// Nothing said yet.
pub open spec fn block_start() -> BlockState {
    BlockState { name: "unknown"@, compr: CompressionType::Stored, lz4_size: 0 }
}

/// `line` starts with `p`.
pub open spec fn starts(line: Seq<char>, p: Seq<char>) -> bool {
    p.is_prefix_of(line)
}

/// A number of a script, 0 when it does not parse.
pub open spec fn number_or_zero(s: Seq<char>) -> u64 {
    match spec_parse_number(s) {
        Some(v) => v,
        None => 0,
    }
}

/// `mscompress7` marks LZMA, and a second one double LZMA.
pub open spec fn step_lzma(st: BlockState, line: Seq<char>) -> BlockState {
    if starts(line, "mscompress7"@) {
        BlockState {
            compr: if st.compr == CompressionType::Stored {
                CompressionType::Lzma
            } else if st.compr == CompressionType::Lzma {
                CompressionType::DoubleLzma
            } else {
                st.compr
            },
            ..st
        }
    } else {
        st
    }
}

/// `lz4` marks LZ4, with the decompressed size as its sixth word.
pub open spec fn step_lz4(st: BlockState, line: Seq<char>) -> BlockState {
    if starts(line, "lz4"@) {
        BlockState {
            compr: CompressionType::Lz4,
            lz4_size: number_or_zero(spec_words(line)[5]),
            ..st
        }
    } else {
        st
    }
}

/// The destination named by word `k` of `line`, unless one is known.
pub open spec fn named(st: BlockState, line: Seq<char>, k: int) -> Seq<char> {
    if st.name == "unknown"@ {
        spec_words(line)[k]
    } else {
        st.name
    }
}

/// `mmc unlzo` marks LZO and names the destination as its fifth word.
pub open spec fn step_unlzo(st: BlockState, line: Seq<char>) -> BlockState {
    if starts(line, "mmc unlzo"@) {
        BlockState { compr: CompressionType::Lzo, name: named(st, line, 4), ..st }
    } else {
        st
    }
}

/// `sparse_write` marks a sparse image and names the destination as its
/// fourth word.
pub open spec fn step_sparse(st: BlockState, line: Seq<char>) -> BlockState {
    if starts(line, "sparse_write"@) {
        BlockState { compr: CompressionType::Sparse, name: named(st, line, 3), ..st }
    } else {
        st
    }
}

/// `mmc write.boot` names the boot partition.
pub open spec fn step_boot(st: BlockState, line: Seq<char>) -> BlockState {
    if starts(line, "mmc write.boot"@) && st.name == "unknown"@ {
        BlockState { name: "_mmc_boot"@, ..st }
    } else {
        st
    }
}

/// `mmc write`, `nand write` and `ubi write` name the destination as their
/// fourth word.
pub open spec fn is_write(line: Seq<char>) -> bool {
    starts(line, "mmc write"@) || starts(line, "nand write"@) || starts(line, "ubi write"@)
}

/// A write command names the destination.
pub open spec fn step_write(st: BlockState, line: Seq<char>) -> BlockState {
    if is_write(line) {
        BlockState { name: named(st, line, 3), ..st }
    } else {
        st
    }
}

/// `st` after one line of the block.
pub open spec fn spec_block_step(st: BlockState, line: Seq<char>) -> BlockState {
    step_write(
        step_boot(step_sparse(step_unlzo(step_lz4(step_lzma(st, line), line), line), line), line),
        line,
    )
}

/// Every word that the line's commands read is there.
pub open spec fn step_ok(st: BlockState, line: Seq<char>) -> bool {
    let w = spec_words(line);
    let s2 = step_lz4(step_lzma(st, line), line);
    let s3 = step_unlzo(s2, line);
    let s5 = step_boot(step_sparse(s3, line), line);
    &&& starts(line, "lz4"@) ==> w.len() > 5
    &&& starts(line, "mmc unlzo"@) && s2.name == "unknown"@ ==> w.len() > 4
    &&& starts(line, "sparse_write"@) && s3.name == "unknown"@ ==> w.len() > 3
    &&& is_write(line) && s5.name == "unknown"@ ==> w.len() > 3
}

/// The state after the lines from `j` up to the next `filepartload`.
pub open spec fn spec_block(lines: Seq<Seq<char>>, j: int, st: BlockState) -> BlockState
    decreases lines.len() - j,
{
    if j < 0 || j >= lines.len() || starts(lines[j], "filepartload"@) {
        st
    } else {
        spec_block(lines, j + 1, spec_block_step(st, lines[j]))
    }
}

/// Every line of the block can be read.
pub open spec fn block_ok(lines: Seq<Seq<char>>, j: int, st: BlockState) -> bool
    decreases lines.len() - j,
{
    if j < 0 || j >= lines.len() || starts(lines[j], "filepartload"@) {
        true
    } else {
        step_ok(st, lines[j]) && block_ok(lines, j + 1, spec_block_step(st, lines[j]))
    }
}

/// One part that a script loads: offset and size in the image, where it
/// goes, and how it is stored.
pub ghost struct PartModel {
    pub offset: u64,
    pub size: u64,
    pub name: Seq<char>,
    pub compr: CompressionType,
    pub lz4_size: u64,
}

/// The part of the `filepartload` line `i`: offset and size are its fourth
/// and fifth words (0 when they do not parse).
pub open spec fn part_at(lines: Seq<Seq<char>>, i: int) -> PartModel {
    let w = spec_words(lines[i]);
    let st = spec_block(lines, i + 1, block_start());
    PartModel {
        offset: number_or_zero(w[3]),
        size: number_or_zero(w[4]),
        name: st.name,
        compr: st.compr,
        lz4_size: st.lz4_size,
    }
}

/// The parts of the `filepartload` lines among the first `n` lines.
pub open spec fn spec_parts(lines: Seq<Seq<char>>, n: nat) -> Seq<PartModel>
    decreases n,
{
    if n == 0 {
        Seq::empty()
    } else if starts(lines[n - 1], "filepartload"@) {
        spec_parts(lines, (n - 1) as nat).push(part_at(lines, n - 1))
    } else {
        spec_parts(lines, (n - 1) as nat)
    }
}

/// A line that starts with `q` does not start with `p` when the two
/// differ at a position both have.
proof fn lemma_not_starts(line: Seq<char>, p: Seq<char>, q: Seq<char>, j: int)
    requires
        starts(line, q),
        0 <= j < p.len(),
        j < q.len(),
        p[j] != q[j],
    ensures
        !starts(line, p),
{
    assert(line.subrange(0, q.len() as int)[j] == line[j]);
    if starts(line, p) {
        assert(line.subrange(0, p.len() as int)[j] == line[j]);
    }
}

/// Once a part has a destination, no later line of its block changes it.
proof fn lemma_block_keeps_name(lines: Seq<Seq<char>>, j: int, st: BlockState)
    requires
        st.name != "unknown"@,
    ensures
        spec_block(lines, j, st).name == st.name,
    decreases lines.len() - j,
{
    if !(j < 0 || j >= lines.len() || starts(lines[j], "filepartload"@)) {
        let st2 = spec_block_step(st, lines[j]);
        assert(st2.name == st.name);
        lemma_block_keeps_name(lines, j + 1, st2);
    }
}

/// A `ubi write`, `nand write` or `mmc write` line (not `mmc write.boot`)
/// right after a `filepartload` line names that part's destination with
/// its fourth word.
pub proof fn lemma_write_line_names_part(lines: Seq<Seq<char>>, i: int)
    requires
        0 <= i,
        i + 1 < lines.len(),
        starts(lines[i], "filepartload"@),
        starts(lines[i + 1], "ubi write"@) || starts(lines[i + 1], "nand write"@) || (starts(
            lines[i + 1],
            "mmc write"@,
        ) && !starts(lines[i + 1], "mmc write.boot"@)),
        spec_words(lines[i + 1]).len() > 3,
        spec_words(lines[i + 1])[3] != "unknown"@,
    ensures
        part_at(lines, i).name == spec_words(lines[i + 1])[3],
{
    reveal_strlit("filepartload");
    reveal_strlit("mscompress7");
    reveal_strlit("lz4");
    reveal_strlit("mmc unlzo");
    reveal_strlit("sparse_write");
    reveal_strlit("mmc write.boot");
    reveal_strlit("mmc write");
    reveal_strlit("nand write");
    reveal_strlit("ubi write");
    reveal_strlit("unknown");
    let line = lines[i + 1];
    if starts(line, "ubi write"@) {
        lemma_not_starts(line, "filepartload"@, "ubi write"@, 0);
        lemma_not_starts(line, "mscompress7"@, "ubi write"@, 0);
        lemma_not_starts(line, "lz4"@, "ubi write"@, 0);
        lemma_not_starts(line, "mmc unlzo"@, "ubi write"@, 0);
        lemma_not_starts(line, "sparse_write"@, "ubi write"@, 0);
        lemma_not_starts(line, "mmc write.boot"@, "ubi write"@, 0);
    } else if starts(line, "nand write"@) {
        lemma_not_starts(line, "filepartload"@, "nand write"@, 0);
        lemma_not_starts(line, "mscompress7"@, "nand write"@, 0);
        lemma_not_starts(line, "lz4"@, "nand write"@, 0);
        lemma_not_starts(line, "mmc unlzo"@, "nand write"@, 0);
        lemma_not_starts(line, "sparse_write"@, "nand write"@, 0);
        lemma_not_starts(line, "mmc write.boot"@, "nand write"@, 0);
    } else {
        lemma_not_starts(line, "filepartload"@, "mmc write"@, 0);
        lemma_not_starts(line, "mscompress7"@, "mmc write"@, 1);
        lemma_not_starts(line, "lz4"@, "mmc write"@, 0);
        lemma_not_starts(line, "mmc unlzo"@, "mmc write"@, 4);
        lemma_not_starts(line, "sparse_write"@, "mmc write"@, 0);
    }
    let st1 = spec_block_step(block_start(), line);
    assert(st1.name == spec_words(line)[3]);
    assert(spec_block(lines, i + 1, block_start()) == spec_block(lines, i + 2, st1));
    lemma_block_keeps_name(lines, i + 2, st1);
}

/// Every `filepartload` line of a script gives a part: the part of line
/// `i` is among the parts of any run of lines that includes it.
pub proof fn lemma_every_filepartload_gives_a_part(lines: Seq<Seq<char>>, n: nat, i: int)
    requires
        0 <= i < n <= lines.len(),
        starts(lines[i], "filepartload"@),
    ensures
        spec_parts(lines, n).contains(part_at(lines, i)),
    decreases n,
{
    let prev = spec_parts(lines, (n - 1) as nat);
    if i == n - 1 {
        assert(spec_parts(lines, n) == prev.push(part_at(lines, i)));
        assert(spec_parts(lines, n)[prev.len() as int] == part_at(lines, i));
    } else {
        lemma_every_filepartload_gives_a_part(lines, (n - 1) as nat, i);
        let w = choose|w: int| 0 <= w < prev.len() && prev[w] == part_at(lines, i);
        if starts(lines[n - 1], "filepartload"@) {
            assert(spec_parts(lines, n)[w] == prev[w]);
        }
    }
}

/// Every word that the script's commands read is there.
pub open spec fn script_ok(lines: Seq<Seq<char>>) -> bool {
    forall|i: int|
        0 <= i < lines.len() && starts(lines[i], "filepartload"@) ==> spec_words(lines[i]).len()
            > 4 && block_ok(lines, i + 1, block_start())
}

/// One part that a script loads.
pub struct MstarPart {
    pub offset: u64,
    pub size: u64,
    /// Where the part goes (`unknown` when no line says).
    pub name: String,
    pub compression: CompressionType,
    /// The size an LZ4 part decompresses to.
    pub lz4_size: u64,
}

/// The model of a part.
pub open spec fn part_view(p: MstarPart) -> PartModel {
    PartModel {
        offset: p.offset,
        size: p.size,
        name: p.name@,
        compr: p.compression,
        lz4_size: p.lz4_size,
    }
}

struct Block {
    name: Vec<char>,
    compr: CompressionType,
    lz4_size: u64,
}

spec fn block_view(b: Block) -> BlockState {
    BlockState { name: b.name@, compr: b.compr, lz4_size: b.lz4_size }
}

fn is_unknown(name: &Vec<char>) -> (r: bool)
    ensures
        r == (name@ == "unknown"@),
{
    let u = chars_of("unknown");
    crate::text::chars_eq(name.as_slice(), u.as_slice())
}

fn line_starts(line: &Vec<char>, p: &str) -> (r: bool)
    ensures
        r == starts(line@, p@),
{
    let pc = chars_of(p);
    let r = starts_with(line.as_slice(), pc.as_slice());
    assert(r == (pc@.len() <= line@.len() && line@.take(pc@.len() as int) == pc@));
    r
}

/// One line of a block; `None` when a word it reads is missing.
fn block_step(st: Block, line: &Vec<char>) -> (r: Option<Block>)
    ensures
        step_ok(block_view(st), line@) ==> (r matches Some(b) && block_view(b) == spec_block_step(
            block_view(st),
            line@,
        )),
        !step_ok(block_view(st), line@) ==> r is None,
{
    let ghost s0 = block_view(st);
    let words = split_whitespace(line.as_slice());
    let ghost w = spec_words(line@);
    assert(words@.len() == w.len());
    let mut st = st;
    if line_starts(line, "mscompress7") {
        if st.compr == CompressionType::Stored {
            st.compr = CompressionType::Lzma;
        } else if st.compr == CompressionType::Lzma {
            st.compr = CompressionType::DoubleLzma;
        }
    }
    assert(block_view(st) == step_lzma(s0, line@));
    if line_starts(line, "lz4") {
        if words.len() <= 5 {
            return None;
        }
        st.compr = CompressionType::Lz4;
        assert(words@[5]@ == w[5]);
        st.lz4_size = match parse_number(words[5].as_slice()) {
            Some(v) => v,
            None => 0,
        };
    }
    let ghost s2 = block_view(st);
    assert(s2 == step_lz4(step_lzma(s0, line@), line@));
    if line_starts(line, "mmc unlzo") {
        st.compr = CompressionType::Lzo;
        if is_unknown(&st.name) {
            if words.len() <= 4 {
                return None;
            }
            assert(words@[4]@ == w[4]);
            st.name = char_range(words[4].as_slice(), 0, words[4].len());
            assert(st.name@ =~= w[4]);
        }
    }
    let ghost s3 = block_view(st);
    assert(s3 == step_unlzo(s2, line@));
    if line_starts(line, "sparse_write") {
        st.compr = CompressionType::Sparse;
        if is_unknown(&st.name) {
            if words.len() <= 3 {
                return None;
            }
            assert(words@[3]@ == w[3]);
            st.name = char_range(words[3].as_slice(), 0, words[3].len());
            assert(st.name@ =~= w[3]);
        }
    }
    assert(block_view(st) == step_sparse(s3, line@));
    if line_starts(line, "mmc write.boot") && is_unknown(&st.name) {
        st.name = chars_of("_mmc_boot");
    }
    let ghost s5 = block_view(st);
    assert(s5 == step_boot(step_sparse(s3, line@), line@));
    if line_starts(line, "mmc write") || line_starts(line, "nand write") || line_starts(
        line,
        "ubi write",
    ) {
        if is_unknown(&st.name) {
            if words.len() <= 3 {
                return None;
            }
            assert(words@[3]@ == w[3]);
            st.name = char_range(words[3].as_slice(), 0, words[3].len());
            assert(st.name@ =~= w[3]);
        }
    }
    assert(block_view(st) == step_write(s5, line@));
    Some(st)
}

/// Splits a script into its trimmed lines.
fn lines_of(text: &str) -> (r: Vec<Vec<char>>)
    ensures
        views(r@) == script_lines(text@),
{
    let cs = chars_of(text);
    let pieces = split_char(cs.as_slice(), '\n');
    let mut out: Vec<Vec<char>> = Vec::new();
    let mut i: usize = 0;
    while i < pieces.len()
        invariant
            i <= pieces@.len(),
            views(pieces@) == spec_split(cs@, '\n'),
            cs@ == text@,
            out@.len() == i,
            views(out@) == spec_split(text@, '\n').take(i as int).map_values(
                |l: Seq<char>| spec_trim(l),
            ),
        decreases pieces@.len() - i,
    {
        let t = trim(pieces[i].as_slice());
        let ghost o0 = out@;
        out.push(t);
        i += 1;
        proof {
            let sp = spec_split(text@, '\n');
            let target = sp.take(i as int).map_values(|l: Seq<char>| spec_trim(l));
            let prev = sp.take(i - 1).map_values(|l: Seq<char>| spec_trim(l));
            assert forall|k: int| 0 <= k < i implies views(out@)[k] == target[k] by {
                if k < i - 1 {
                    assert(out@[k] == o0[k]);
                    assert(views(o0)[k] == prev[k]);
                } else {
                    assert(views(pieces@)[k] == pieces@[k]@);
                }
            }
            assert(views(out@) =~= target);
        }
    }
    assert(spec_split(text@, '\n').take(i as int) =~= spec_split(text@, '\n'));
    out
}

/// The block of a part, from line `j` on; `None` when a line of it lacks a
/// word that it reads.
fn scan_block(lines: &Vec<Vec<char>>, j: usize) -> (r: Option<Block>)
    ensures
        block_ok(views(lines@), j as int, block_start()) ==> (r matches Some(b) && block_view(b)
            == spec_block(views(lines@), j as int, block_start())),
        !block_ok(views(lines@), j as int, block_start()) ==> r is None,
{
    let ghost ls = views(lines@);
    let mut st = Block { name: chars_of("unknown"), compr: CompressionType::Stored, lz4_size: 0 };
    assert(block_view(st) == block_start());
    let mut k = j;
    while k < lines.len() && !line_starts(&lines[k], "filepartload")
        invariant
            ls == views(lines@),
            j <= k,
            block_ok(ls, j as int, block_start()) == block_ok(ls, k as int, block_view(st)),
            spec_block(ls, j as int, block_start()) == spec_block(ls, k as int, block_view(st)),
        decreases lines@.len() - k,
    {
        assert(ls[k as int] == lines@[k as int]@);
        match block_step(st, &lines[k]) {
            None => {
                return None;
            },
            Some(b) => {
                st = b;
            },
        }
        k += 1;
    }
    proof {
        if k < lines@.len() {
            assert(ls[k as int] == lines@[k as int]@);
        }
    }
    Some(st)
}

/// The part of a `filepartload` line is loadable: the line has a fourth
/// and a fifth word, and its block can be read.
spec fn part_ok(lines: Seq<Seq<char>>, i: int) -> bool {
    starts(lines[i], "filepartload"@) ==> spec_words(lines[i]).len() > 4 && block_ok(
        lines,
        i + 1,
        block_start(),
    )
}

/// The parts of all `filepartload` lines; `None` when a command lacks a
/// word that it reads.
fn scan_parts(lines: &Vec<Vec<char>>) -> (r: Option<Vec<MstarPart>>)
    ensures
        script_ok(views(lines@)) ==> (r matches Some(v) && Seq::new(
            v@.len(),
            |i: int| part_view(v@[i]),
        ) == spec_parts(views(lines@), lines@.len())),
        !script_ok(views(lines@)) ==> r is None,
{
    let ghost ls = views(lines@);
    let mut parts: Vec<MstarPart> = Vec::new();
    let mut i: usize = 0;
    while i < lines.len()
        invariant
            ls == views(lines@),
            i <= lines@.len(),
            forall|k: int| 0 <= k < i ==> #[trigger] part_ok(ls, k),
            Seq::new(parts@.len(), |k: int| part_view(parts@[k])) == spec_parts(ls, i as nat),
        decreases lines@.len() - i,
    {
        assert(ls[i as int] == lines@[i as int]@);
        let ghost p0 = parts@;
        if line_starts(&lines[i], "filepartload") {
            let words = split_whitespace(lines[i].as_slice());
            if words.len() <= 4 {
                assert(!part_ok(ls, i as int));
                return None;
            }
            assert(words@[3]@ == spec_words(ls[i as int])[3]);
            assert(words@[4]@ == spec_words(ls[i as int])[4]);
            let offset = match parse_number(words[3].as_slice()) {
                Some(v) => v,
                None => 0,
            };
            let size = match parse_number(words[4].as_slice()) {
                Some(v) => v,
                None => 0,
            };
            let b = match scan_block(lines, i + 1) {
                None => {
                    assert(!part_ok(ls, i as int));
                    return None;
                },
                Some(b) => b,
            };
            let part = MstarPart {
                offset,
                size,
                name: string_from_chars(b.name.as_slice()),
                compression: b.compr,
                lz4_size: b.lz4_size,
            };
            assert(part_view(part) == part_at(ls, i as int));
            parts.push(part);
            assert(Seq::new(parts@.len(), |k: int| part_view(parts@[k])) =~= Seq::new(
                p0.len(),
                |k: int| part_view(p0[k]),
            ).push(part_at(ls, i as int)));
        }
        assert(part_ok(ls, i as int));
        i += 1;
    }
    assert(script_ok(ls)) by {
        assert forall|k: int| 0 <= k < ls.len() && starts(ls[k], "filepartload"@) implies spec_words(
            ls[k],
        ).len() > 4 && block_ok(ls, k + 1, block_start()) by {
            assert(part_ok(ls, k));
        }
    }
    Some(parts)
}

/// The message for a script whose command lacks a word it reads.
pub open spec fn malformed_script_message() -> Seq<char> {
    "MStar script command lacks an argument"@
}

/// The parts that `script` loads, in its order; an error for a script in
/// which a command lacks a word it reads.
pub fn extract_mstar(script: &str) -> (r: Result<Vec<MstarPart>, UnixtractError>)
    ensures
        script_ok(script_lines(script@)) ==> (r matches Ok(v) && Seq::new(
            v@.len(),
            |i: int| part_view(v@[i]),
        ) == spec_parts(script_lines(script@), script_lines(script@).len())),
        !script_ok(script_lines(script@)) ==> (r matches Err(UnixtractError::InvalidFormat(m))
            && m@ == malformed_script_message()),
{
    let lines = lines_of(script);
    match scan_parts(&lines) {
        Some(v) => Ok(v),
        None => {
            let m = chars_of("MStar script command lacks an argument");
            Err(UnixtractError::InvalidFormat(string_from_chars(m.as_slice())))
        },
    }
}

/// The script text of an image: the one at offset 0 (`first`), or when
/// that is empty the one at offset 0x1000 (`fallback`); `None` when both
/// are empty.
pub open spec fn spec_choose_script(first: Seq<u8>, fallback: Seq<u8>) -> Option<Seq<char>> {
    let a = utf8_lossy(until_terminator(first));
    let b = utf8_lossy(until_terminator(fallback));
    if a.len() > 0 {
        Some(a)
    } else if b.len() > 0 {
        Some(b)
    } else {
        None
    }
}

/// Picks the script of an image from the bytes read at offset 0 and at
/// offset 0x1000, failing when neither holds one.
pub fn mstar_script(first: &[u8], fallback: &[u8]) -> (r: Result<String, UnixtractError>)
    ensures
        match spec_choose_script(first@, fallback@) {
            Some(t) => r matches Ok(s) && s@ == t,
            None => r matches Err(UnixtractError::Other(m)) && m@ == "Failed to get script"@,
        },
{
    let a = script_text(first);
    if chars_of(a.as_str()).len() > 0 {
        return Ok(a);
    }
    let b = script_text(fallback);
    if chars_of(b.as_str()).len() > 0 {
        return Ok(b);
    }
    let m = chars_of("Failed to get script");
    Err(UnixtractError::Other(string_from_chars(m.as_slice())))
}

/// The file a part is saved to: `<name>.bin`; for a part with no known
/// destination `_unknown_<offset>.bin` when those are kept, else none.
pub open spec fn spec_output_name(p: PartModel, keep_unknown: bool) -> Option<Seq<char>> {
    if p.name == "unknown"@ {
        if keep_unknown {
            Some("_unknown_"@ + crate::fmt::spec_dec(p.offset as nat) + ".bin"@)
        } else {
            None
        }
    } else {
        Some(p.name + ".bin"@)
    }
}

/// The file a part is saved to, if any.
pub fn mstar_output_name(part: &MstarPart, keep_unknown: bool) -> (r: Option<String>)
    ensures
        match spec_output_name(part_view(*part), keep_unknown) {
            Some(n) => r matches Some(s) && s@ == n,
            None => r is None,
        },
{
    let name = chars_of(part.name.as_str());
    if is_unknown(&name) {
        if keep_unknown {
            let mut s = chars_of("_unknown_");
            crate::text::push_all(&mut s, crate::fmt::dec(part.offset).as_slice());
            crate::text::push_str(&mut s, ".bin");
            Some(string_from_chars(s.as_slice()))
        } else {
            None
        }
    } else {
        let mut s = name;
        crate::text::push_str(&mut s, ".bin");
        Some(string_from_chars(s.as_slice()))
    }
}

} // verus!
