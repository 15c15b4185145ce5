//! The beatmap text format: a line-oriented file with a `[General]`
//! section naming the audio track and the game mode, and a `[HitObjects]`
//! section with one comma-separated note per line.

use vstd::prelude::*;

use crate::components::HitObject;
use crate::resources::BeatMap;
use crate::utils::osu_to_real_time;

verus! {

/// ASCII decimal digit.
pub open spec fn is_digit(b: u8) -> bool {
    48 <= b <= 57
}

/// Every byte of `s` is a decimal digit.
pub open spec fn all_digits(s: Seq<u8>) -> bool {
    forall|i: int| 0 <= i < s.len() ==> is_digit(#[trigger] s[i])
}

/// The number the digit string `s` denotes, most significant digit first.
pub open spec fn digits_value(s: Seq<u8>) -> int
    decreases s.len(),
{
    if s.len() == 0 {
        0
    } else {
        10 * digits_value(s.drop_last()) + (s.last() - 48)
    }
}

pub proof fn lemma_digits_value_nonneg(s: Seq<u8>)
    requires
        all_digits(s),
    ensures
        digits_value(s) >= 0,
    decreases s.len(),
{
    if s.len() > 0 {
        assert(all_digits(s.drop_last()));
        lemma_digits_value_nonneg(s.drop_last());
    }
}

/// A digit string denotes at least what any of its prefixes denotes.
pub proof fn lemma_digits_value_prefix_le(s: Seq<u8>, j: int)
    requires
        all_digits(s),
        0 <= j <= s.len(),
    ensures
        digits_value(s.take(j)) <= digits_value(s),
    decreases s.len() - j,
{
    assert(all_digits(s.take(j)));
    if j == s.len() {
        assert(s.take(j) =~= s);
    } else {
        lemma_digits_value_prefix_le(s, j + 1);
        assert(s.take(j + 1).drop_last() =~= s.take(j));
        assert(s.take(j + 1).last() == s[j]);
        lemma_digits_value_nonneg(s.take(j));
        assert(digits_value(s.take(j + 1)) == 10 * digits_value(s.take(j)) + (s[j] - 48));
    }
}

/// What `u8::from_str` accepts: an optional `+`, then at least one digit,
/// denoting a value up to 255.
pub open spec fn spec_parse_u8(s: Seq<u8>) -> Option<u8> {
    let t = if s.len() > 0 && s[0] == 43 {
        s.skip(1)
    } else {
        s
    };
    if t.len() > 0 && all_digits(t) && digits_value(t) <= 255 {
        Some(digits_value(t) as u8)
    } else {
        None
    }
}

/// What `i32::from_str` accepts: an optional sign, then at least one
/// digit, denoting a value in the `i32` range.
pub open spec fn spec_parse_i32(s: Seq<u8>) -> Option<i32> {
    let neg = s.len() > 0 && s[0] == 45;
    let t = if s.len() > 0 && (s[0] == 43 || s[0] == 45) {
        s.skip(1)
    } else {
        s
    };
    if t.len() > 0 && all_digits(t) && (if neg {
        digits_value(t) <= 0x8000_0000
    } else {
        digits_value(t) <= 0x7fff_ffff
    }) {
        Some(
            (if neg {
                -digits_value(t)
            } else {
                digits_value(t)
            }) as i32,
        )
    } else {
        None
    }
}

/// Reads an unsigned decimal digit run `s[from..]` whose value must stay
/// at most `bound`; `None` on an empty run, a non-digit, or a too large
/// value.
fn parse_digits(s: &Vec<u8>, from: usize, bound: u64) -> (r: Option<u64>)
    requires
        from <= s@.len(),
        bound < 0x1000_0000_0000_0000,
    ensures
        ({
            let t = s@.skip(from as int);
            match r {
                Some(v) => t.len() > 0 && all_digits(t) && digits_value(t) == v && v <= bound,
                None => !(t.len() > 0 && all_digits(t) && digits_value(t) <= bound),
            }
        }),
{
    let ghost t = s@.skip(from as int);
    if from == s.len() {
        return None;
    }
    let mut acc: u64 = 0;
    let mut i: usize = from;
    while i < s.len()
        invariant
            from <= i <= s@.len(),
            from < s@.len(),
            t == s@.skip(from as int),
            bound < 0x1000_0000_0000_0000,
            acc <= bound,
            all_digits(t.take(i - from)),
            acc == digits_value(t.take(i - from)),
        decreases s@.len() - i,
    {
        let b = s[i];
        proof {
            assert(t[i - from] == s@[i as int]);
            assert(t.take(i - from + 1).drop_last() =~= t.take(i - from));
            assert(t.take(i - from + 1).last() == t[i - from]);
        }
        if !(48 <= b && b <= 57) {
            assert(!all_digits(t)) by {
                assert(!is_digit(t[i - from]));
            }
            return None;
        }
        let next: u64 = acc * 10 + ((b - 48) as u64);
        assert(next == digits_value(t.take(i - from + 1)));
        if next > bound {
            proof {
                if all_digits(t) {
                    lemma_digits_value_prefix_le(t, i - from + 1);
                }
            }
            return None;
        }
        acc = next;
        i = i + 1;
    }
    proof {
        assert(t.take(s@.len() - from) =~= t);
    }
    Some(acc)
}

/// The position of the first occurrence of `b` in `s`, or `s.len()` when
/// there is none.
pub open spec fn first_index_of(s: Seq<u8>, b: u8) -> int
    decreases s.len(),
{
    if s.len() == 0 {
        0
    } else if s[0] == b {
        0
    } else {
        1 + first_index_of(s.skip(1), b)
    }
}

pub proof fn lemma_first_index_of(s: Seq<u8>, b: u8)
    ensures
        0 <= first_index_of(s, b) <= s.len(),
        first_index_of(s, b) < s.len() ==> s[first_index_of(s, b)] == b,
        forall|i: int| 0 <= i < first_index_of(s, b) ==> s[i] != b,
    decreases s.len(),
{
    if s.len() > 0 && s[0] != b {
        lemma_first_index_of(s.skip(1), b);
        let k = first_index_of(s, b);
        if k < s.len() {
            assert(s.skip(1)[k - 1] == s[k]);
        }
        assert forall|i: int| 0 <= i < k implies s[i] != b by {
            if i >= 1 {
                assert(s.skip(1)[i - 1] == s[i]);
            }
        }
    }
}

/// A line as `str::lines` would hand it out: the final `\r` goes when the
/// line was ended by `\r\n`.
pub open spec fn strip_cr(l: Seq<u8>) -> Seq<u8> {
    if l.len() > 0 && l.last() == 13 {
        l.drop_last()
    } else {
        l
    }
}

/// The lines of `s`, split at `\n` or `\r\n`; a final line ending is
/// optional, and a lone final `\r` stays.
pub open spec fn spec_lines(s: Seq<u8>) -> Seq<Seq<u8>>
    decreases s.len(),
    via spec_lines_decreases
{
    if s.len() == 0 {
        Seq::empty()
    } else {
        let i = first_index_of(s, 10);
        if i == s.len() {
            seq![s]
        } else {
            seq![strip_cr(s.take(i))] + spec_lines(s.skip(i + 1))
        }
    }
}

#[via_fn]
proof fn spec_lines_decreases(s: Seq<u8>) {
    lemma_first_index_of(s, 10);
}

/// The fields of `s`, split at every occurrence of `sep`; there is always
/// at least one (possibly empty) field.
pub open spec fn spec_split(s: Seq<u8>, sep: u8) -> Seq<Seq<u8>>
    decreases s.len(),
    via spec_split_decreases
{
    let i = first_index_of(s, sep);
    if i == s.len() {
        seq![s]
    } else {
        seq![s.take(i)] + spec_split(s.skip(i + 1), sep)
    }
}

#[via_fn]
proof fn spec_split_decreases(s: Seq<u8>, sep: u8) {
    lemma_first_index_of(s, sep);
}

/// The position of the first occurrence of `b` in `s[from..]`, as an
/// absolute index; `s.len()` when there is none.
fn find_byte(s: &Vec<u8>, from: usize, b: u8) -> (r: usize)
    requires
        from <= s@.len(),
    ensures
        from <= r <= s@.len(),
        r - from == first_index_of(s@.skip(from as int), b),
{
    let ghost t = s@.skip(from as int);
    proof {
        lemma_first_index_of(t, b);
    }
    let mut i: usize = from;
    while i < s.len()
        invariant
            from <= i <= s@.len(),
            t == s@.skip(from as int),
            forall|j: int| 0 <= j < i - from ==> t[j] != b,
        decreases s@.len() - i,
    {
        if s[i] == b {
            proof {
                assert(t[i - from] == s@[i as int]);
                lemma_first_index_of(t, b);
                assert(first_index_of(t, b) == i - from) by {
                    if first_index_of(t, b) < i - from {
                        assert(t[first_index_of(t, b)] == b);
                    }
                }
            }
            return i;
        }
        proof {
            assert(t[i - from] == s@[i as int]);
        }
        i = i + 1;
    }
    proof {
        lemma_first_index_of(t, b);
        if first_index_of(t, b) < t.len() {
            assert(t[first_index_of(t, b)] == b);
        }
    }
    s.len()
}

/// Copies `s[start..end]` out as its own byte string.
fn subvec(s: &Vec<u8>, start: usize, end: usize) -> (r: Vec<u8>)
    requires
        start <= end <= s@.len(),
    ensures
        r@ == s@.subrange(start as int, end as int),
{
    let mut r: Vec<u8> = Vec::new();
    let mut i: usize = start;
    while i < end
        invariant
            start <= i <= end <= s@.len(),
            r@ == s@.subrange(start as int, i as int),
        decreases end - i,
    {
        r.push(s[i]);
        i = i + 1;
        proof {
            assert(r@ =~= s@.subrange(start as int, i as int));
        }
    }
    r
}

/// Splits `s` into its lines, as `str::lines` does on the same bytes.
pub fn split_lines(s: &Vec<u8>) -> (lines: Vec<Vec<u8>>)
    ensures
        lines@.map_values(|l: Vec<u8>| l@) == spec_lines(s@),
{
    let mut lines: Vec<Vec<u8>> = Vec::new();
    let mut pos: usize = 0;
    proof {
        assert(s@.skip(0) =~= s@);
    }
    while pos < s.len()
        invariant
            0 <= pos <= s@.len(),
            lines@.map_values(|l: Vec<u8>| l@) + spec_lines(s@.skip(pos as int)) == spec_lines(
                s@,
            ),
        decreases s@.len() - pos,
    {
        let ghost t = s@.skip(pos as int);
        proof {
            lemma_first_index_of(t, 10);
        }
        let r = find_byte(s, pos, 10);
        let ghost i = r - pos;
        let mut piece = subvec(s, pos, r);
        proof {
            assert(piece@ =~= t.take(i));
        }
        if r < s.len() {
            // The line was ended by a newline: drop a carriage return
            // directly before it.
            if piece.len() > 0 && piece[piece.len() - 1] == 13 {
                piece.pop();
            }
            proof {
                assert(piece@ =~= strip_cr(t.take(i)));
            }
            lines.push(piece);
            proof {
                assert(t.skip(i + 1) =~= s@.skip(r + 1));
                assert(lines@.map_values(|l: Vec<u8>| l@) =~= lines@.map_values(
                    |l: Vec<u8>| l@,
                ).take(lines@.len() - 1).push(piece@));
                assert(spec_lines(t) == seq![strip_cr(t.take(i))] + spec_lines(t.skip(i + 1)));
                assert(lines@.map_values(|l: Vec<u8>| l@) + spec_lines(s@.skip(r + 1)) =~= spec_lines(
                    s@,
                ));
            }
            pos = r + 1;
        } else {
            // No further newline: the rest is the final line, kept as is.
            proof {
                assert(t.take(i) =~= t);
                assert(spec_lines(t) == seq![t]);
            }
            lines.push(piece);
            proof {
                assert(s@.skip(s@.len() as int) =~= Seq::<u8>::empty());
                assert(lines@.map_values(|l: Vec<u8>| l@) + spec_lines(
                    s@.skip(s@.len() as int),
                ) =~= spec_lines(s@));
            }
            pos = s.len();
        }
    }
    proof {
        assert(s@.skip(s@.len() as int) =~= Seq::<u8>::empty());
        assert(lines@.map_values(|l: Vec<u8>| l@) =~= spec_lines(s@));
    }
    lines
}

/// Splits `s` at every occurrence of `sep`, as `str::split` does.
pub fn split_bytes(s: &Vec<u8>, sep: u8) -> (pieces: Vec<Vec<u8>>)
    ensures
        pieces@.map_values(|l: Vec<u8>| l@) == spec_split(s@, sep),
{
    let mut pieces: Vec<Vec<u8>> = Vec::new();
    let mut pos: usize = 0;
    proof {
        assert(s@.skip(0) =~= s@);
    }
    loop
        invariant_except_break
            0 <= pos <= s@.len(),
            pieces@.map_values(|l: Vec<u8>| l@) + spec_split(s@.skip(pos as int), sep)
                == spec_split(s@, sep),
        ensures
            pieces@.map_values(|l: Vec<u8>| l@) == spec_split(s@, sep),
        decreases s@.len() - pos,
    {
        let ghost t = s@.skip(pos as int);
        proof {
            lemma_first_index_of(t, sep);
        }
        let r = find_byte(s, pos, sep);
        let ghost i = r - pos;
        let piece = subvec(s, pos, r);
        proof {
            assert(piece@ =~= t.take(i));
        }
        pieces.push(piece);
        if r < s.len() {
            proof {
                assert(t.skip(i + 1) =~= s@.skip(r + 1));
                assert(spec_split(t, sep) == seq![t.take(i)] + spec_split(t.skip(i + 1), sep));
                assert(pieces@.map_values(|l: Vec<u8>| l@) + spec_split(s@.skip(r + 1), sep)
                    =~= spec_split(s@, sep));
            }
            pos = r + 1;
        } else {
            proof {
                assert(t.take(i) =~= t);
                assert(spec_split(t, sep) == seq![t]);
                assert(pieces@.map_values(|l: Vec<u8>| l@) =~= spec_split(s@, sep));
            }
            break ;
        }
    }
    pieces
}

/// Reads a `u8` from its decimal notation, as the beatmap format writes
/// one: an optional `+`, then digits.
pub fn parse_u8_bytes(s: &Vec<u8>) -> (r: Option<u8>)
    ensures
        r == spec_parse_u8(s@),
{
    let from: usize = if s.len() > 0 && s[0] == 43 {
        1
    } else {
        0
    };
    proof {
        if from == 0 {
            assert(s@.skip(0) =~= s@);
        }
    }
    match parse_digits(s, from, 255) {
        Some(v) => Some(v as u8),
        None => None,
    }
}

/// Reads an `i32` from its decimal notation: an optional sign, then
/// digits.
pub fn parse_i32_bytes(s: &Vec<u8>) -> (r: Option<i32>)
    ensures
        r == spec_parse_i32(s@),
{
    let neg = s.len() > 0 && s[0] == 45;
    let from: usize = if s.len() > 0 && (s[0] == 43 || s[0] == 45) {
        1
    } else {
        0
    };
    proof {
        if from == 0 {
            assert(s@.skip(0) =~= s@);
        }
    }
    let bound: u64 = if neg {
        0x8000_0000
    } else {
        0x7fff_ffff
    };
    match parse_digits(s, from, bound) {
        Some(v) => {
            if neg {
                Some((-(v as i64)) as i32)
            } else {
                Some(v as i32)
            }
        },
        None => None,
    }
}

/// Which section of the beatmap file the scanner is in.
#[derive(Clone, Copy, PartialEq, Eq, Structural, Debug)]
pub enum Section {
    Intro,
    General,
    HitObjects,
}

/// The bytes of the line "[HitObjects]".
pub open spec fn hitobjects_header() -> Seq<u8> {
    seq![91u8, 72u8, 105u8, 116u8, 79u8, 98u8, 106u8, 101u8, 99u8, 116u8, 115u8, 93u8]
}

/// The bytes of the line "[General]".
pub open spec fn general_header() -> Seq<u8> {
    seq![91u8, 71u8, 101u8, 110u8, 101u8, 114u8, 97u8, 108u8, 93u8]
}

/// The bytes of "AudioFilename:".
pub open spec fn audio_filename_prefix() -> Seq<u8> {
    seq![65u8, 117u8, 100u8, 105u8, 111u8, 70u8, 105u8, 108u8, 101u8, 110u8, 97u8, 109u8, 101u8, 58u8]
}

/// The bytes of "Mode:".
pub open spec fn mode_prefix() -> Seq<u8> {
    seq![77u8, 111u8, 100u8, 101u8, 58u8]
}

/// The bytes of ".ogg".
pub open spec fn ogg_suffix() -> Seq<u8> {
    seq![46u8, 111u8, 103u8, 103u8]
}

fn is_hitobjects_header(line: &Vec<u8>) -> (r: bool)
    ensures
        r == (line@ == hitobjects_header()),
{
    let r = line.len() == 12 && line[0] == 91 && line[1] == 72 && line[2] == 105 && line[3] == 116
        && line[4] == 79 && line[5] == 98 && line[6] == 106 && line[7] == 101 && line[8] == 99
        && line[9] == 116 && line[10] == 115 && line[11] == 93;
    proof {
        if r {
            assert(line@ =~= hitobjects_header());
        }
    }
    r
}

fn is_general_header(line: &Vec<u8>) -> (r: bool)
    ensures
        r == (line@ == general_header()),
{
    let r = line.len() == 9 && line[0] == 91 && line[1] == 71 && line[2] == 101 && line[3] == 110
        && line[4] == 101 && line[5] == 114 && line[6] == 97 && line[7] == 108 && line[8] == 93;
    proof {
        if r {
            assert(line@ =~= general_header());
        }
    }
    r
}

fn starts_with_audio_filename(line: &Vec<u8>) -> (r: bool)
    ensures
        r == (line@.len() >= 14 && line@.take(14) == audio_filename_prefix()),
{
    let r = line.len() >= 14 && line[0] == 65 && line[1] == 117 && line[2] == 100 && line[3]
        == 105 && line[4] == 111 && line[5] == 70 && line[6] == 105 && line[7] == 108 && line[8]
        == 101 && line[9] == 110 && line[10] == 97 && line[11] == 109 && line[12] == 101
        && line[13] == 58;
    proof {
        if r {
            assert(line@.take(14) =~= audio_filename_prefix());
        } else if line@.len() >= 14 {
            assert forall|j: int| 0 <= j < 14 implies line@.take(14)[j] == line@[j] by {}
        }
    }
    r
}

fn starts_with_mode(line: &Vec<u8>) -> (r: bool)
    ensures
        r == (line@.len() >= 5 && line@.take(5) == mode_prefix()),
{
    let r = line.len() >= 5 && line[0] == 77 && line[1] == 111 && line[2] == 100 && line[3] == 101
        && line[4] == 58;
    proof {
        if r {
            assert(line@.take(5) =~= mode_prefix());
        } else if line@.len() >= 5 {
            assert forall|j: int| 0 <= j < 5 implies line@.take(5)[j] == line@[j] by {}
        }
    }
    r
}

fn ends_with_ogg(path: &Vec<u8>) -> (r: bool)
    ensures
        r == (path@.len() >= 4 && path@.skip(path@.len() - 4) == ogg_suffix()),
{
    let n = path.len();
    if n < 4 {
        return false;
    }
    let r = path[n - 4] == 46 && path[n - 3] == 111 && path[n - 2] == 103 && path[n - 1] == 103;
    proof {
        if r {
            assert(path@.skip(path@.len() - 4) =~= ogg_suffix());
        } else {
            assert(path@.skip(path@.len() - 4)[0] == path@[path@.len() - 4]);
            assert(path@.skip(path@.len() - 4)[1] == path@[path@.len() - 3]);
            assert(path@.skip(path@.len() - 4)[2] == path@[path@.len() - 2]);
            assert(path@.skip(path@.len() - 4)[3] == path@[path@.len() - 1]);
        }
    }
    r
}

/// The lane colour and size a hit-object type code denotes: 0 is a small
/// red note, 4 a big red one, 8 a small blue one, 12 a big blue one.
/// Anything else (sliders, spinners) is read as a small blue note.
pub open spec fn hit_kind(objecttype: u8) -> (bool, bool) {
    if objecttype == 0 {
        (true, false)
    } else if objecttype == 4 {
        (true, true)
    } else if objecttype == 8 {
        (false, false)
    } else if objecttype == 12 {
        (false, true)
    } else {
        (false, false)
    }
}

/// The scanner's state between lines: the current section, the audio file
/// name seen so far, and the notes read so far.
pub ghost struct ScanState {
    pub section: Section,
    pub songpath: Seq<u8>,
    pub objects: Seq<HitObject>,
}

/// The state before the first line.
pub open spec fn initial_scan_state() -> ScanState {
    ScanState { section: Section::Intro, songpath: Seq::empty(), objects: Seq::empty() }
}

/// How one line changes the scanner's state; `None` when the line makes
/// the whole file unusable (a non-ogg audio track, a mode other than
/// taiko, or a malformed hit-object field).
pub open spec fn scan_step(st: ScanState, line: Seq<u8>) -> Option<ScanState> {
    let sec = if line == hitobjects_header() {
        Section::HitObjects
    } else if line == general_header() {
        Section::General
    } else {
        st.section
    };
    let st1 = ScanState { section: sec, songpath: st.songpath, objects: st.objects };
    if sec == Section::General {
        if line.len() >= 14 && line.take(14) == audio_filename_prefix() {
            if line.len() < 15 {
                None
            } else {
                let sp = line.skip(15);
                if sp.len() >= 4 && sp.skip(sp.len() - 4) == ogg_suffix() {
                    Some(ScanState { section: sec, songpath: sp, objects: st.objects })
                } else {
                    None
                }
            }
        } else if line.len() >= 5 && line.take(5) == mode_prefix() {
            if line.len() < 6 {
                None
            } else if line.skip(6) == seq![49u8] {
                Some(st1)
            } else {
                None
            }
        } else {
            Some(st1)
        }
    } else if sec == Section::HitObjects {
        let parts = spec_split(line, 44);
        if parts.len() != 6 {
            Some(st1)
        } else {
            match spec_parse_u8(parts[4]) {
                Some(ty) => match spec_parse_i32(parts[2]) {
                    Some(time) => Some(
                        ScanState {
                            section: sec,
                            songpath: st.songpath,
                            objects: st.objects.push(
                                HitObject { red: hit_kind(ty).0, time: time as i64, big: hit_kind(ty).1 },
                            ),
                        },
                    ),
                    None => None,
                },
                None => None,
            }
        }
    } else {
        Some(st1)
    }
}

/// Folds `scan_step` over the lines of the file.
pub open spec fn scan_lines(st: ScanState, lines: Seq<Seq<u8>>) -> Option<ScanState>
    decreases lines.len(),
{
    if lines.len() == 0 {
        Some(st)
    } else {
        match scan_step(st, lines[0]) {
            Some(st2) => scan_lines(st2, lines.skip(1)),
            None => None,
        }
    }
}

/// What scanning a whole beatmap file yields.
pub open spec fn spec_scan(content: Seq<u8>) -> Option<ScanState> {
    scan_lines(initial_scan_state(), spec_lines(content))
}

/// Reads a beatmap from the bytes of a difficulty file found under
/// `folder_path`. Returns `None` when the file is not a usable taiko map:
/// its audio track is not an ogg file, its mode is not taiko, or a
/// hit-object field does not parse. The map's hit window is 50
/// milliseconds.
pub fn parse_beatmap(folder_path: &Vec<u8>, content: &Vec<u8>) -> (r: Option<BeatMap>)
    ensures
        match (r, spec_scan(content@)) {
            (Some(bm), Some(st)) => {
                &&& bm.name@ == st.songpath
                &&& bm.songpath@ == folder_path@ + seq![47u8] + st.songpath
                &&& bm.objects@ == st.objects
                &&& bm.maxhitoffset == 50
                &&& bm.wf()
            },
            (None, None) => true,
            _ => false,
        },
{
    let lines = split_lines(content);
    let ghost all = spec_lines(content@);
    let mut section = Section::Intro;
    let mut songpath: Vec<u8> = Vec::new();
    let mut objects: Vec<HitObject> = Vec::new();
    let mut li: usize = 0;
    proof {
        assert(all.skip(0) =~= all);
    }
    while li < lines.len()
        invariant
            lines@.map_values(|l: Vec<u8>| l@) == all,
            0 <= li <= lines@.len(),
            spec_scan(content@) == scan_lines(
                ScanState { section, songpath: songpath@, objects: objects@ },
                all.skip(li as int),
            ),
            forall|i: int| 0 <= i < objects@.len() ==> (#[trigger] objects@[i]).wf(),
        decreases lines@.len() - li,
    {
        let ghost st_cur = ScanState { section, songpath: songpath@, objects: objects@ };
        let ghost line_view = all[li as int];
        proof {
            assert(lines@.map_values(|l: Vec<u8>| l@)[li as int] == lines@[li as int]@);
            assert(all.skip(li as int)[0] == all[li as int]);
        }
        let line = &lines[li];
        if is_hitobjects_header(line) {
            section = Section::HitObjects;
        } else if is_general_header(line) {
            section = Section::General;
        }
        let ghost sec = section;
        match section {
            Section::General => {
                if starts_with_audio_filename(line) {
                    if line.len() < 15 {
                        return None;
                    }
                    let sp = subvec(line, 15, line.len());
                    proof {
                        assert(sp@ =~= line_view.skip(15));
                    }
                    if !ends_with_ogg(&sp) {
                        return None;
                    }
                    songpath = sp;
                } else if starts_with_mode(line) {
                    if line.len() < 6 {
                        return None;
                    }
                    let taiko = line.len() == 7 && line[6] == 49;
                    proof {
                        if taiko {
                            assert(line_view.skip(6) =~= seq![49u8]);
                        } else {
                            if line_view.len() == 7 {
                                assert(line_view.skip(6)[0] == line_view[6]);
                            } else {
                                assert(line_view.skip(6).len() != 1);
                            }
                        }
                    }
                    if !taiko {
                        return None;
                    }
                }
            },
            Section::HitObjects => {
                let parts = split_bytes(line, 44);
                proof {
                    assert(parts@.map_values(|l: Vec<u8>| l@) == spec_split(line_view, 44));
                }
                if parts.len() == 6 {
                    proof {
                        assert(parts@.map_values(|l: Vec<u8>| l@)[4] == parts@[4]@);
                        assert(parts@.map_values(|l: Vec<u8>| l@)[2] == parts@[2]@);
                    }
                    let objecttype = match parse_u8_bytes(&parts[4]) {
                        Some(t) => t,
                        None => {
                            return None;
                        },
                    };
                    let time32 = match parse_i32_bytes(&parts[2]) {
                        Some(t) => t,
                        None => {
                            return None;
                        },
                    };
                    let (red, big) = match objecttype {
                        0 => (true, false),  // small red
                        4 => (true, true),  // big red
                        8 => (false, false),  // small blue
                        12 => (false, true),  // big blue
                        _ => (false, false),  // probably a slider; read as a small blue note
                    };
                    objects.push(HitObject { red, time: osu_to_real_time(time32), big });
                }
            },
            Section::Intro => {},
        }
        proof {
            assert(scan_step(st_cur, line_view) == Some(
                ScanState { section: sec, songpath: songpath@, objects: objects@ },
            ));
            assert(all.skip(li as int).skip(1) =~= all.skip(li as int + 1));
        }
        li = li + 1;
    }
    proof {
        assert(all.skip(lines@.len() as int) =~= Seq::<Seq<u8>>::empty());
    }
    // Assemble the map: its display name is the audio file name, its song
    // path that name under the beatmap's folder.
    let mut full_songpath = subvec(folder_path, 0, folder_path.len());
    full_songpath.push(47);
    let mut tail = subvec(&songpath, 0, songpath.len());
    full_songpath.append(&mut tail);
    proof {
        assert(folder_path@.subrange(0, folder_path@.len() as int) =~= folder_path@);
        assert(songpath@.subrange(0, songpath@.len() as int) =~= songpath@);
        assert(full_songpath@ =~= folder_path@ + seq![47u8] + songpath@);
    }
    Some(BeatMap { name: songpath, songpath: full_songpath, objects, maxhitoffset: 50 })
}

} // verus!
