//! Detection of what an input is: its file format, from the extension of
//! its name and its first bytes, and for delimited text its dialect, from a
//! bounded sample of its lines.

use vstd::prelude::*;
use vstd::std_specs::hash::spec_values_iter;
use vstd::std_specs::iter::IteratorSpec;
use vstd::string::StringSliceAdditionalSpecFns;
use std::collections::HashMap;
use crate::text::{is_word, same_word};

verus! {

/// The format of an input file.
#[derive(Debug, Clone, Copy, PartialEq, Eq, Structural)]
pub enum FileFormat {
    /// Delimited text.
    Csv,
    /// A spreadsheet workbook.
    Xlsx,
}

/// The format that a file extension stands for, in any case of its letters:
/// a spreadsheet for `xlsx`, `xlsm`, `xlsb` and `xls`, delimited text for
/// `csv`, `tsv` and `txt`, and none for any other.
pub open spec fn extension_format(extension: Seq<char>) -> Option<FileFormat> {
    if same_word(extension, "xlsx"@) || same_word(extension, "xlsm"@) || same_word(
        extension,
        "xlsb"@,
    ) || same_word(extension, "xls"@) {
        Some(FileFormat::Xlsx)
    } else if same_word(extension, "csv"@) || same_word(extension, "tsv"@) || same_word(
        extension,
        "txt"@,
    ) {
        Some(FileFormat::Csv)
    } else {
        None
    }
}

/// The format that the first bytes of a file stand for: a spreadsheet if
/// there are four bytes at least and they start as a ZIP archive (`50 4B`)
/// or as a compound document (`D0 CF`) does, else delimited text.
pub open spec fn magic_format(head: Seq<u8>) -> FileFormat {
    if head.len() >= 4 && ((head[0] == 0x50 && head[1] == 0x4b) || (head[0] == 0xd0 && head[1]
        == 0xcf)) {
        FileFormat::Xlsx
    } else {
        FileFormat::Csv
    }
}

/// The format of a file: what its extension stands for, if it has one that
/// stands for a format, else what its first bytes stand for.
pub open spec fn file_format(extension: Option<Seq<char>>, head: Seq<u8>) -> FileFormat {
    match extension {
        Some(e) => match extension_format(e) {
            Some(format) => format,
            None => magic_format(head),
        },
        None => magic_format(head),
    }
}

/// The format that a format name given by the user stands for, in any case
/// of its letters: `csv`, `xlsx` or `xls`.
pub open spec fn named_format(name: Seq<char>) -> Option<FileFormat> {
    if same_word(name, "csv"@) {
        Some(FileFormat::Csv)
    } else if same_word(name, "xlsx"@) || same_word(name, "xls"@) {
        Some(FileFormat::Xlsx)
    } else {
        None
    }
}

/// Classifies a file by the extension of its name.
pub fn format_from_extension(extension: &str) -> (format: Option<FileFormat>)
    ensures
        format == extension_format(extension@),
{
    if is_word(extension, "xlsx") || is_word(extension, "xlsm") || is_word(extension, "xlsb")
        || is_word(extension, "xls") {
        Some(FileFormat::Xlsx)
    } else if is_word(extension, "csv") || is_word(extension, "tsv") || is_word(
        extension,
        "txt",
    ) {
        Some(FileFormat::Csv)
    } else {
        None
    }
}

/// Classifies a file by its first bytes.
pub fn format_from_magic(head: &[u8]) -> (format: FileFormat)
    ensures
        format == magic_format(head@),
{
    if head.len() >= 4 && ((head[0] == 0x50 && head[1] == 0x4b) || (head[0] == 0xd0 && head[1]
        == 0xcf)) {
        FileFormat::Xlsx
    } else {
        FileFormat::Csv
    }
}

/// Detects the format of a file from the extension of its name, if it has
/// one, and from its first bytes.
///
/// The bytes are looked at only where the extension does not settle the
/// format.
pub fn detect_file_format(extension: Option<&str>, head: &[u8]) -> (format: FileFormat)
    ensures
        format == file_format(
            match extension {
                Some(e) => Some(e@),
                None => None,
            },
            head@,
        ),
{
    match extension {
        Some(e) => match format_from_extension(e) {
            Some(format) => format,
            None => format_from_magic(head),
        },
        None => format_from_magic(head),
    }
}

/// Reads a format name given by the user.
pub fn format_from_name(name: &str) -> (format: Option<FileFormat>)
    ensures
        format == named_format(name@),
{
    if is_word(name, "csv") {
        Some(FileFormat::Csv)
    } else if is_word(name, "xlsx") || is_word(name, "xls") {
        Some(FileFormat::Xlsx)
    } else {
        None
    }
}

/// How many lines from the start of the input the detection looks at.
pub const SAMPLE_LINES: usize = 250;

/// The comma, first of the candidate delimiters and the default.
pub const COMMA: u8 = 0x2c;

/// The semicolon, second of the candidate delimiters.
pub const SEMICOLON: u8 = 0x3b;

/// The tab, third of the candidate delimiters.
pub const TAB: u8 = 0x09;

/// The pipe, last of the candidate delimiters.
pub const PIPE: u8 = 0x7c;

/// The double quote, the quote character of every detected dialect.
pub const QUOTE: u8 = 0x22;

/// The backslash, the only escape byte that detection can find.
pub const BACKSLASH: u8 = 0x5c;

/// The line terminator of a dialect.
#[derive(Debug, Clone, Copy, PartialEq, Eq, Structural)]
pub enum Terminator {
    CRLF,
    LF,
}

/// How often `value` occurs in `s`.
pub open spec fn occurrences<T>(s: Seq<T>, value: T) -> nat
    decreases s.len(),
{
    if s.len() == 0 {
        0
    } else {
        occurrences(s.drop_last(), value) + if s.last() == value {
            1nat
        } else {
            0nat
        }
    }
}

/// The sum of all elements of `counts`.
pub open spec fn sum(counts: Seq<nat>) -> nat
    decreases counts.len(),
{
    if counts.len() == 0 {
        0
    } else {
        sum(counts.drop_last()) + counts.last()
    }
}

/// The sampled lines, each as its UTF-8 bytes: the first `SAMPLE_LINES` lines
/// of the input, or all of them if there are fewer.
pub open spec fn sample(lines: Seq<String>) -> Seq<Seq<u8>> {
    Seq::new(
        if lines.len() <= SAMPLE_LINES {
            lines.len()
        } else {
            SAMPLE_LINES as nat
        },
        |i: int| vstd::utf8::encode_utf8(lines[i]@),
    )
}

/// For each non-empty line of the sample, in order, how often `delimiter`
/// occurs in it.
pub open spec fn delimiter_counts(sample: Seq<Seq<u8>>, delimiter: u8) -> Seq<nat>
    decreases sample.len(),
{
    if sample.len() == 0 {
        Seq::empty()
    } else {
        let rest = delimiter_counts(sample.drop_last(), delimiter);
        if sample.last().len() == 0 {
            rest
        } else {
            rest.push(occurrences(sample.last(), delimiter))
        }
    }
}

/// `m` is the number of elements of `counts` that share its most frequent
/// value: some value occurs `m` times and none occurs more often.
pub open spec fn is_mode_frequency(counts: Seq<nat>, m: nat) -> bool {
    &&& exists|v: nat| occurrences(counts, v) == m
    &&& forall|v: nat| occurrences(counts, v) <= m
}

/// The number of elements of `counts` that share its most frequent value
/// (0 for an empty sequence).
pub open spec fn mode_frequency(counts: Seq<nat>) -> nat {
    choose|m: nat| is_mode_frequency(counts, m)
}

/// A candidate survives if it occurs in at least one sampled line.
pub open spec fn survives(sample: Seq<Seq<u8>>, delimiter: u8) -> bool {
    exists|i: int| 0 <= i < sample.len() && occurrences(#[trigger] sample[i], delimiter) > 0
}

/// The score of a candidate, scaled by `10 * n * n`, where `n` is the number
/// of non-empty sampled lines.
///
/// With `total` the sum of the per-line counts and `mode` the number of lines
/// that share the most frequent count, the score is
/// `total / n * (7/10 + 3/10 * mode / n)`. All candidates of one sample share
/// `n`, so their scaled scores compare exactly as their scores do.
pub open spec fn score(sample: Seq<Seq<u8>>, delimiter: u8) -> nat {
    let counts = delimiter_counts(sample, delimiter);
    sum(counts) * (7 * counts.len() + 3 * mode_frequency(counts))
}

/// The candidate delimiters in their fixed order: comma, semicolon, tab, pipe.
pub open spec fn candidate(k: int) -> u8 {
    if k == 0 {
        COMMA
    } else if k == 1 {
        SEMICOLON
    } else if k == 2 {
        TAB
    } else {
        PIPE
    }
}

/// Candidate `k` wins: it survives, no surviving candidate scores higher, and
/// among the surviving candidates with its score it is listed first.
pub open spec fn wins(sample: Seq<Seq<u8>>, k: int) -> bool {
    &&& 0 <= k < 4
    &&& survives(sample, candidate(k))
    &&& forall|j: int|
        0 <= j < 4 && survives(sample, #[trigger] candidate(j)) ==> {
            &&& score(sample, candidate(j)) <= score(sample, candidate(k))
            &&& score(sample, candidate(j)) == score(sample, candidate(k)) ==> k <= j
        }
}

/// The delimiter of a sample: the winning candidate, or a comma if no
/// candidate survives.
pub open spec fn delimiter_of(sample: Seq<Seq<u8>>) -> u8 {
    if exists|k: int| wins(sample, k) {
        candidate(choose|k: int| wins(sample, k))
    } else {
        COMMA
    }
}

/// The byte `first` is directly followed by the byte `second` somewhere in `line`.
pub open spec fn contains_pair(line: Seq<u8>, first: u8, second: u8) -> bool {
    exists|i: int|
        0 <= i && i + 1 < line.len() && line[i] == first && #[trigger] line[i + 1] == second
}

/// Some sampled line holds a quote preceded by a backslash.
pub open spec fn has_backslash_escape(sample: Seq<Seq<u8>>) -> bool {
    exists|i: int| 0 <= i < sample.len() && contains_pair(#[trigger] sample[i], BACKSLASH, QUOTE)
}

/// Some sampled line holds two quotes in a row.
pub open spec fn has_double_quote_escape(sample: Seq<Seq<u8>>) -> bool {
    exists|i: int| 0 <= i < sample.len() && contains_pair(#[trigger] sample[i], QUOTE, QUOTE)
}

/// The escape byte of a sample: a backslash if some line shows a
/// backslash-escaped quote and none shows a doubled quote; otherwise none,
/// which stands for escaping a quote by doubling it.
pub open spec fn escape_of(sample: Seq<Seq<u8>>) -> Option<u8> {
    if has_backslash_escape(sample) && !has_double_quote_escape(sample) {
        Some(BACKSLASH)
    } else {
        None
    }
}

/// The dialect of a sample, as delimiter, quote, escape and line terminator.
pub open spec fn dialect_of(sample: Seq<Seq<u8>>) -> (u8, u8, Option<u8>, Terminator) {
    if sample.len() == 0 {
        (COMMA, QUOTE, None, Terminator::CRLF)
    } else {
        (delimiter_of(sample), QUOTE, escape_of(sample), Terminator::CRLF)
    }
}

/// The elements of `counts` as natural numbers.
pub open spec fn nats(counts: Seq<usize>) -> Seq<nat> {
    counts.map_values(|c: usize| c as nat)
}

/// Counts the occurrences of `byte` in `line`.
pub fn count_byte(line: &[u8], byte: u8) -> (n: usize)
    ensures
        n == occurrences(line@, byte),
{
    let mut n: usize = 0;
    let mut i: usize = 0;
    while i < line.len()
        invariant
            i <= line.len(),
            n <= i,
            n == occurrences(line@.take(i as int), byte),
        decreases line.len() - i,
    {
        proof {
            assert(line@.take(i + 1).drop_last() =~= line@.take(i as int));
        }
        if line[i] == byte {
            n = n + 1;
        }
        i = i + 1;
    }
    proof {
        assert(line@.take(i as int) =~= line@);
    }
    n
}

/// A value that occurs in a sequence occurs at some index.
proof fn lemma_occurs_at_index<T>(s: Seq<T>, value: T) -> (i: int)
    requires
        occurrences(s, value) > 0,
    ensures
        0 <= i < s.len(),
        s[i] == value,
    decreases s.len(),
{
    if s.last() == value {
        s.len() - 1
    } else {
        lemma_occurs_at_index(s.drop_last(), value)
    }
}

/// An element of a sequence occurs in it.
proof fn lemma_occurrences_positive<T>(s: Seq<T>, i: int)
    requires
        0 <= i < s.len(),
    ensures
        occurrences(s, s[i]) > 0,
    decreases s.len(),
{
    if i < s.len() - 1 {
        lemma_occurrences_positive(s.drop_last(), i);
    }
}

/// No value occurs more often than the sequence is long.
proof fn lemma_occurrences_bounded<T>(s: Seq<T>, value: T)
    ensures
        occurrences(s, value) <= s.len(),
    decreases s.len(),
{
    if s.len() > 0 {
        lemma_occurrences_bounded(s.drop_last(), value);
    }
}

/// A sequence has one mode frequency only.
pub proof fn lemma_mode_frequency_unique(counts: Seq<nat>, m: nat)
    requires
        is_mode_frequency(counts, m),
    ensures
        mode_frequency(counts) == m,
{
    let chosen = choose|c: nat| is_mode_frequency(counts, c);
    assert(is_mode_frequency(counts, chosen));
}

/// Every sequence has a mode frequency: `mode_frequency` is the number of
/// elements that share the most frequent value, at most the length of the
/// sequence, and at least one unless the sequence is empty.
pub proof fn lemma_mode_frequency(counts: Seq<nat>)
    ensures
        is_mode_frequency(counts, mode_frequency(counts)),
        mode_frequency(counts) <= counts.len(),
        counts.len() > 0 ==> mode_frequency(counts) >= 1,
    decreases counts.len(),
{
    if counts.len() == 0 {
        assert(occurrences(counts, 0nat) == 0);
        assert(is_mode_frequency(counts, 0nat));
        lemma_mode_frequency_unique(counts, 0nat);
    } else {
        let front = counts.drop_last();
        let last = counts.last();
        lemma_mode_frequency(front);
        let before = mode_frequency(front);
        let shared = occurrences(counts, last);
        lemma_occurrences_bounded(counts, last);
        let m = if shared > before {
            shared
        } else {
            before
        };
        assert forall|v: nat| occurrences(counts, v) <= m by {
            assert(occurrences(front, v) <= before);
        }
        if shared <= before {
            let v = choose|v: nat| occurrences(front, v) == before;
            assert(occurrences(counts, v) == m);
        } else {
            assert(occurrences(counts, last) == m);
        }
        assert(is_mode_frequency(counts, m));
        lemma_mode_frequency_unique(counts, m);
    }
}

/// The counts add up to more than zero exactly if the candidate survives, and
/// there is one count per non-empty line at most.
proof fn lemma_sum_positive_iff_survives(sample: Seq<Seq<u8>>, delimiter: u8)
    ensures
        sum(delimiter_counts(sample, delimiter)) > 0 <==> survives(sample, delimiter),
        delimiter_counts(sample, delimiter).len() <= sample.len(),
    decreases sample.len(),
{
    if sample.len() > 0 {
        let front = sample.drop_last();
        lemma_sum_positive_iff_survives(front, delimiter);
        let rest = delimiter_counts(front, delimiter);
        if sample.last().len() != 0 {
            assert(rest.push(occurrences(sample.last(), delimiter)).drop_last() =~= rest);
        }
        if survives(front, delimiter) {
            let i = choose|i: int|
                0 <= i < front.len() && occurrences(#[trigger] front[i], delimiter) > 0;
            assert(sample[i] == front[i]);
        }
        if occurrences(sample.last(), delimiter) > 0 {
            assert(sample[sample.len() - 1] == sample.last());
        }
        if survives(sample, delimiter) {
            let i = choose|i: int|
                0 <= i < sample.len() && occurrences(#[trigger] sample[i], delimiter) > 0;
            if i < front.len() {
                assert(front[i] == sample[i]);
            }
        }
    }
}

/// Counts, for each non-empty sampled line, the occurrences of `delimiter`.
fn line_counts(lines: &[String], delimiter: u8) -> (counts: Vec<usize>)
    ensures
        nats(counts@) == delimiter_counts(sample(lines@), delimiter),
        counts.len() <= SAMPLE_LINES,
{
    let limit: usize = if lines.len() <= SAMPLE_LINES {
        lines.len()
    } else {
        SAMPLE_LINES
    };
    let mut counts: Vec<usize> = Vec::new();
    let mut i: usize = 0;
    while i < limit
        invariant
            i <= limit,
            limit <= lines.len(),
            limit <= SAMPLE_LINES,
            limit == sample(lines@).len(),
            counts.len() <= i,
            nats(counts@) =~= delimiter_counts(sample(lines@).take(i as int), delimiter),
        decreases limit - i,
    {
        let bytes = lines[i].as_str().as_bytes();
        proof {
            assert(bytes@ == sample(lines@)[i as int]);
            assert(sample(lines@).take(i + 1).drop_last() =~= sample(lines@).take(i as int));
        }
        if bytes.len() > 0 {
            let count = count_byte(bytes, delimiter);
            let ghost before = counts@;
            counts.push(count);
            proof {
                assert(nats(counts@) =~= nats(before).push(count as nat));
            }
        }
        i = i + 1;
    }
    proof {
        assert(sample(lines@).take(i as int) =~= sample(lines@));
    }
    counts
}

/// Adds up the counts.
fn sum_counts(counts: &Vec<usize>) -> (total: u128)
    requires
        counts.len() <= SAMPLE_LINES,
    ensures
        total == sum(nats(counts@)),
        total <= SAMPLE_LINES * usize::MAX,
{
    let mut total: u128 = 0;
    let mut i: usize = 0;
    while i < counts.len()
        invariant
            i <= counts.len(),
            counts.len() <= SAMPLE_LINES,
            total == sum(nats(counts@).take(i as int)),
            total <= i * usize::MAX,
        decreases counts.len() - i,
    {
        proof {
            assert(nats(counts@).take(i + 1).drop_last() =~= nats(counts@).take(i as int));
            assert((i + 1) * usize::MAX == i * usize::MAX + usize::MAX) by (nonlinear_arith);
            assert(i * usize::MAX <= 250 * usize::MAX) by (nonlinear_arith)
                requires
                    i <= 250,
            ;
        }
        total = total + counts[i] as u128;
        i = i + 1;
    }
    proof {
        assert(nats(counts@).take(i as int) =~= nats(counts@));
        assert(i * usize::MAX <= SAMPLE_LINES * usize::MAX) by (nonlinear_arith)
            requires
                i <= SAMPLE_LINES,
        ;
    }
    total
}

/// Counts, for each value among `counts`, how often it occurs.
fn count_frequencies(counts: &Vec<usize>) -> (count_freq: HashMap<usize, usize>)
    ensures
        forall|c: usize|
            count_freq@.contains_key(c) <==> occurrences(nats(counts@), c as nat) > 0,
        forall|c: usize|
            count_freq@.contains_key(c) ==> #[trigger] count_freq@[c] == occurrences(
                nats(counts@),
                c as nat,
            ),
{
    broadcast use vstd::std_specs::hash::group_hash_axioms;

    let ghost all = nats(counts@);
    let mut count_freq: HashMap<usize, usize> = HashMap::new();
    let mut i: usize = 0;
    while i < counts.len()
        invariant
            i <= counts.len(),
            all == nats(counts@),
            forall|c: usize|
                count_freq@.contains_key(c) <==> occurrences(all.take(i as int), c as nat) > 0,
            forall|c: usize|
                count_freq@.contains_key(c) ==> #[trigger] count_freq@[c] == occurrences(
                    all.take(i as int),
                    c as nat,
                ),
        decreases counts.len() - i,
    {
        let count = counts[i];
        proof {
            assert(all.take(i + 1).drop_last() =~= all.take(i as int));
            assert(all.take(i + 1).last() == count as nat);
            lemma_occurrences_bounded(all.take(i as int), count as nat);
        }
        let seen: usize = match count_freq.get(&count) {
            Some(frequency) => *frequency,
            None => 0,
        };
        count_freq.insert(count, seen + 1);
        i = i + 1;
    }
    proof {
        assert(all.take(i as int) =~= all);
    }
    count_freq
}

/// Finds how many elements of `counts` share its most frequent value: the
/// largest of the frequencies of its values.
fn mode_frequency_of(counts: &Vec<usize>) -> (m: usize)
    ensures
        m == mode_frequency(nats(counts@)),
        m <= counts.len(),
{
    broadcast use vstd::std_specs::hash::group_hash_axioms;

    let ghost all = nats(counts@);
    let count_freq = count_frequencies(counts);
    let ghost frequencies = spec_values_iter(&count_freq).remaining().unref();
    let ghost mut done: int = 0;
    let mut best: usize = 0;
    for frequency in iter: count_freq.values()
        invariant
            iter.seq().unref() == frequencies,
            done == iter.index(),
            forall|k: int| 0 <= k < done ==> #[trigger] frequencies[k] <= best,
            done == 0 ==> best == 0,
            done > 0 ==> exists|k: int| 0 <= k < done && #[trigger] frequencies[k] == best,
    {
        proof {
            assert(frequencies[done] == *frequency);
            done = done + 1;
        }
        if *frequency > best {
            best = *frequency;
        }
    }
    proof {
        assert(done == frequencies.len());
        assert(frequencies.to_set() == count_freq@.values());
        assert forall|v: nat| occurrences(all, v) <= best by {
            if occurrences(all, v) > 0 {
                let j = lemma_occurs_at_index(all, v);
                let c = counts@[j];
                assert(count_freq@.contains_key(c));
                assert(count_freq@.values().contains(count_freq@[c]));
                assert(frequencies.to_set().contains(count_freq@[c]));
                assert(frequencies.contains(count_freq@[c]));
            }
        }
        if counts.len() == 0 {
            assert(occurrences(all, 0nat) == 0);
            if done > 0 {
                let k = choose|k: int| 0 <= k < done && #[trigger] frequencies[k] == best;
                assert(frequencies.to_set().contains(frequencies[k]));
                assert(count_freq@.values().contains(best));
            }
        } else {
            assert(all[0] == counts@[0] as nat);
            lemma_occurrences_positive(all, 0);
            assert(count_freq@.contains_key(counts@[0]));
            assert(count_freq@.dom().len() > 0);
            let k = choose|k: int| 0 <= k < done && #[trigger] frequencies[k] == best;
            assert(frequencies.to_set().contains(frequencies[k]));
            assert(count_freq@.values().contains(best));
        }
        assert(is_mode_frequency(all, best as nat));
        lemma_mode_frequency_unique(all, best as nat);
        lemma_mode_frequency(all);
    }
    best
}

/// Scores one candidate delimiter against the sampled lines.
///
/// Returns nothing for a candidate that occurs in no sampled line, and the
/// scaled score of every other.
pub fn score_delimiter(lines: &[String], delimiter: u8) -> (r: Option<u128>)
    ensures
        r is Some <==> survives(sample(lines@), delimiter),
        r matches Some(s) ==> s == score(sample(lines@), delimiter),
{
    let counts = line_counts(lines, delimiter);
    let total = sum_counts(&counts);
    proof {
        lemma_sum_positive_iff_survives(sample(lines@), delimiter);
    }
    if total == 0 {
        return None;
    }
    let mode = mode_frequency_of(&counts);
    let weight: u128 = 7 * (counts.len() as u128) + 3 * (mode as u128);
    proof {
        assert(total * weight <= (250 * 0xffff_ffff_ffff_ffff) * 2500) by (nonlinear_arith)
            requires
                total <= 250 * 0xffff_ffff_ffff_ffff,
                weight <= 2500,
        ;
    }
    Some(total * weight)
}

/// The candidate at position `k` of the fixed order.
fn candidate_at(k: usize) -> (byte: u8)
    requires
        k < 4,
    ensures
        byte == candidate(k as int),
{
    if k == 0 {
        COMMA
    } else if k == 1 {
        SEMICOLON
    } else if k == 2 {
        TAB
    } else {
        PIPE
    }
}

/// Detects the field delimiter of the sampled lines.
pub fn detect_delimiter(lines: &[String]) -> (delimiter: u8)
    ensures
        delimiter == delimiter_of(sample(lines@)),
{
    let ghost sampled = sample(lines@);
    let mut found: bool = false;
    let mut best: usize = 0;
    let mut best_score: u128 = 0;
    let mut k: usize = 0;
    while k < 4
        invariant
            k <= 4,
            sampled == sample(lines@),
            !found ==> forall|j: int| 0 <= j < k ==> !survives(sampled, #[trigger] candidate(j)),
            found ==> {
                &&& best < k
                &&& survives(sampled, candidate(best as int))
                &&& best_score == score(sampled, candidate(best as int))
                &&& forall|j: int|
                    0 <= j < k && survives(sampled, #[trigger] candidate(j)) ==> {
                        &&& score(sampled, candidate(j)) <= best_score
                        &&& score(sampled, candidate(j)) == best_score ==> best <= j
                    }
            },
        decreases 4 - k,
    {
        let scored = score_delimiter(lines, candidate_at(k));
        match scored {
            Some(s) => {
                if !found || s > best_score {
                    found = true;
                    best = k;
                    best_score = s;
                }
            },
            None => {},
        }
        k = k + 1;
    }
    if found {
        proof {
            assert(wins(sampled, best as int));
            let chosen = choose|c: int| wins(sampled, c);
            assert(wins(sampled, chosen));
            assert(survives(sampled, candidate(chosen)));
            assert(score(sampled, candidate(chosen)) <= score(sampled, candidate(best as int)));
            assert(score(sampled, candidate(best as int)) <= score(sampled, candidate(chosen)));
        }
        candidate_at(best)
    } else {
        proof {
            assert forall|c: int| !wins(sampled, c) by {
                if 0 <= c < 4 {
                    assert(!survives(sampled, candidate(c)));
                }
            }
        }
        COMMA
    }
}

/// Tells whether `first` is directly followed by `second` somewhere in `line`.
pub fn has_pair(line: &[u8], first: u8, second: u8) -> (found: bool)
    ensures
        found == contains_pair(line@, first, second),
{
    let mut i: usize = 1;
    while i < line.len()
        invariant
            1 <= i,
            forall|j: int|
                0 <= j && j + 1 < i ==> !(line@[j] == first && #[trigger] line@[j + 1] == second),
        decreases line.len() - i,
    {
        if line[i - 1] == first && line[i] == second {
            proof {
                let at: int = i - 1;
                assert(line@[at] == first && line@[at + 1] == second);
            }
            return true;
        }
        i = i + 1;
    }
    false
}

/// Detects the escape convention of the sampled lines.
pub fn detect_escape(lines: &[String]) -> (escape: Option<u8>)
    ensures
        escape == escape_of(sample(lines@)),
{
    let ghost sampled = sample(lines@);
    let limit: usize = if lines.len() <= SAMPLE_LINES {
        lines.len()
    } else {
        SAMPLE_LINES
    };
    let mut backslash: bool = false;
    let mut doubled: bool = false;
    let mut i: usize = 0;
    while i < limit
        invariant
            i <= limit,
            limit <= lines.len(),
            limit == sampled.len(),
            sampled == sample(lines@),
            backslash <==> exists|j: int|
                0 <= j < i && contains_pair(#[trigger] sampled[j], BACKSLASH, QUOTE),
            doubled <==> exists|j: int|
                0 <= j < i && contains_pair(#[trigger] sampled[j], QUOTE, QUOTE),
        decreases limit - i,
    {
        let bytes = lines[i].as_str().as_bytes();
        proof {
            assert(bytes@ == sampled[i as int]);
        }
        if has_pair(bytes, BACKSLASH, QUOTE) {
            backslash = true;
        }
        if has_pair(bytes, QUOTE, QUOTE) {
            doubled = true;
        }
        i = i + 1;
    }
    if backslash && !doubled {
        Some(BACKSLASH)
    } else {
        None
    }
}

/// Detects the dialect of delimited text from its lines.
///
/// Only the first `SAMPLE_LINES` lines are looked at. Without any line the
/// result is the conventional default: comma, double quote, no escape byte,
/// CRLF.
pub fn detect_csv_format(lines: &[String]) -> (dialect: (u8, u8, Option<u8>, Terminator))
    ensures
        dialect == dialect_of(sample(lines@)),
        lines@.len() == 0 ==> dialect == (COMMA, QUOTE, None::<u8>, Terminator::CRLF),
{
    if lines.len() == 0 {
        return (COMMA, QUOTE, None, Terminator::CRLF);
    }
    let delimiter = detect_delimiter(lines);
    let escape = detect_escape(lines);
    (delimiter, QUOTE, escape, Terminator::CRLF)
}

/// A candidate wins if it occurs equally often, and at least once, in every
/// non-empty sampled line, and no other candidate occurs in the sample at
/// all.
pub proof fn lemma_sole_candidate_is_detected(sample: Seq<Seq<u8>>, k: int, count: nat)
    requires
        0 <= k < 4,
        count > 0,
        exists|i: int| 0 <= i < sample.len() && (#[trigger] sample[i]).len() > 0,
        forall|i: int|
            0 <= i < sample.len() && (#[trigger] sample[i]).len() > 0 ==> occurrences(
                sample[i],
                candidate(k),
            ) == count,
        forall|j: int, i: int|
            0 <= j < 4 && j != k && 0 <= i < sample.len() ==> occurrences(
                #[trigger] sample[i],
                #[trigger] candidate(j),
            ) == 0,
    ensures
        delimiter_of(sample) == candidate(k),
        dialect_of(sample).0 == candidate(k),
{
    let i = choose|i: int| 0 <= i < sample.len() && (#[trigger] sample[i]).len() > 0;
    assert(occurrences(sample[i], candidate(k)) > 0);
    assert(survives(sample, candidate(k)));
    assert forall|j: int| 0 <= j < 4 && j != k implies !survives(
        sample,
        #[trigger] candidate(j),
    ) by {
        if survives(sample, candidate(j)) {
            let l = choose|l: int|
                0 <= l < sample.len() && occurrences(#[trigger] sample[l], candidate(j)) > 0;
            assert(occurrences(sample[l], candidate(j)) == 0);
        }
    }
    assert(wins(sample, k));
    let chosen = choose|c: int| wins(sample, c);
    assert(wins(sample, chosen));
    assert(survives(sample, candidate(chosen)));
}

/// Among the first `n` candidates, if one survives, one is ranked first.
proof fn lemma_winner_among(sample: Seq<Seq<u8>>, n: int) -> (k: int)
    requires
        0 <= n <= 4,
        exists|j: int| 0 <= j < n && survives(sample, #[trigger] candidate(j)),
    ensures
        0 <= k < n,
        survives(sample, candidate(k)),
        forall|j: int|
            0 <= j < n && survives(sample, #[trigger] candidate(j)) ==> {
                &&& score(sample, candidate(j)) <= score(sample, candidate(k))
                &&& score(sample, candidate(j)) == score(sample, candidate(k)) ==> k <= j
            },
    decreases n,
{
    let last = n - 1;
    if exists|j: int| 0 <= j < last && survives(sample, #[trigger] candidate(j)) {
        let p = lemma_winner_among(sample, last);
        if survives(sample, candidate(last)) && score(sample, candidate(last)) > score(
            sample,
            candidate(p),
        ) {
            last
        } else {
            p
        }
    } else {
        last
    }
}

/// The delimiter is the winning candidate whenever a candidate survives,
/// and there is a winner then; it is the comma when none survives.
pub proof fn lemma_delimiter_is_top_ranked(sample: Seq<Seq<u8>>)
    ensures
        (forall|k: int| 0 <= k < 4 ==> !survives(sample, #[trigger] candidate(k)))
            ==> delimiter_of(sample) == COMMA,
        (exists|k: int| 0 <= k < 4 && survives(sample, #[trigger] candidate(k))) ==> wins(
            sample,
            choose|k: int| wins(sample, k),
        ),
        forall|k: int| wins(sample, k) ==> delimiter_of(sample) == candidate(k),
{
    if exists|k: int| 0 <= k < 4 && survives(sample, #[trigger] candidate(k)) {
        let k = lemma_winner_among(sample, 4);
        assert(wins(sample, k));
    }
    assert forall|k: int| wins(sample, k) implies delimiter_of(sample) == candidate(k) by {
        let chosen = choose|c: int| wins(sample, c);
        assert(wins(sample, chosen));
        assert(survives(sample, candidate(chosen)));
        assert(survives(sample, candidate(k)));
    }
}

/// The dialect is a function of the sampled lines alone: two inputs that
/// agree on their first `SAMPLE_LINES` lines have the same sample, and so
/// the same dialect. Lines after the sample are not looked at.
pub proof fn lemma_dialect_depends_on_sample_alone(a: Seq<String>, b: Seq<String>)
    requires
        a.len() == b.len() || (a.len() >= SAMPLE_LINES && b.len() >= SAMPLE_LINES),
        forall|i: int| 0 <= i < a.len() && i < SAMPLE_LINES ==> (#[trigger] a[i])@ == b[i]@,
    ensures
        sample(a) == sample(b),
        dialect_of(sample(a)) == dialect_of(sample(b)),
{
    assert(sample(a) =~= sample(b));
}

/// Without any line the dialect is the conventional default: comma, double
/// quote, no escape byte, CRLF.
pub proof fn lemma_empty_input_has_default_dialect(lines: Seq<String>)
    requires
        lines.len() == 0,
    ensures
        dialect_of(sample(lines)) == (COMMA, QUOTE, None::<u8>, Terminator::CRLF),
{
}

/// The quote of every dialect is the double quote, its terminator CRLF, and
/// its delimiter one of the four candidates.
pub proof fn lemma_dialect_shape(sample: Seq<Seq<u8>>)
    ensures
        dialect_of(sample).1 == QUOTE,
        dialect_of(sample).3 == Terminator::CRLF,
        exists|k: int| 0 <= k < 4 && dialect_of(sample).0 == #[trigger] candidate(k),
        dialect_of(sample).2 is None || dialect_of(sample).2 == Some(BACKSLASH),
{
    if sample.len() == 0 || !(exists|k: int| wins(sample, k)) {
        assert(candidate(0) == COMMA);
    } else {
        let chosen = choose|c: int| wins(sample, c);
        assert(wins(sample, chosen));
        assert(dialect_of(sample).0 == candidate(chosen));
    }
}

/// The dialect to read with: what the user gave goes before what was
/// detected, and where nothing was detected the defaults stand in.
pub open spec fn resolved_dialect(
    detected: Option<(u8, u8, Option<u8>, Terminator)>,
    delimiter: Option<u8>,
    quote: Option<u8>,
    escape: Option<u8>,
) -> (u8, u8, Option<u8>, Terminator) {
    let base = match detected {
        Some(dialect) => dialect,
        None => (COMMA, QUOTE, None, Terminator::CRLF),
    };
    (
        match delimiter {
            Some(d) => d,
            None => base.0,
        },
        match quote {
            Some(q) => q,
            None => base.1,
        },
        match escape {
            Some(e) => Some(e),
            None => base.2,
        },
        base.3,
    )
}

/// Settles the dialect to read with from what was detected, if detection
/// ran, and what the user gave.
pub fn resolve_dialect(
    detected: Option<(u8, u8, Option<u8>, Terminator)>,
    delimiter: Option<u8>,
    quote: Option<u8>,
    escape: Option<u8>,
) -> (dialect: (u8, u8, Option<u8>, Terminator))
    ensures
        dialect == resolved_dialect(detected, delimiter, quote, escape),
{
    let base = match detected {
        Some(dialect) => dialect,
        None => (COMMA, QUOTE, None, Terminator::CRLF),
    };
    (
        match delimiter {
            Some(d) => d,
            None => base.0,
        },
        match quote {
            Some(q) => q,
            None => base.1,
        },
        match escape {
            Some(e) => Some(e),
            None => base.2,
        },
        base.3,
    )
}

} // verus!
