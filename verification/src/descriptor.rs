//! The descriptor's on-disk text form: one `key = value` line per field, the
//! filename quoted, the sizes in decimal.
//!
//! ```text
//! filename = "example.bin"
//! filesize = 10485760
//! chunk_size = 4194304
//! num_of_chunks = 3
//! ```
//!
//! The encoder and the parser are both verified against the same grammar, and
//! parsing an encoded descriptor is proved to give the record back.

use vstd::prelude::*;

verus! {

use crate::metadata::{Metadata, generate_metadata};
use crate::naming::{spec_decimal, spec_digit_char};
use vstd::string::*;

/// The text opening the filename line, up to and including the quote.
pub open spec fn spec_key_filename() -> Seq<char> {
    seq!['f', 'i', 'l', 'e', 'n', 'a', 'm', 'e', ' ', '=', ' ', '"']
}

/// The text opening the file-size line.
pub open spec fn spec_key_filesize() -> Seq<char> {
    seq!['f', 'i', 'l', 'e', 's', 'i', 'z', 'e', ' ', '=', ' ']
}

/// The text opening the chunk-size line.
pub open spec fn spec_key_chunk_size() -> Seq<char> {
    seq!['c', 'h', 'u', 'n', 'k', '_', 's', 'i', 'z', 'e', ' ', '=', ' ']
}

/// The text opening the chunk-count line.
pub open spec fn spec_key_num_of_chunks() -> Seq<char> {
    seq!['n', 'u', 'm', '_', 'o', 'f', '_', 'c', 'h', 'u', 'n', 'k', 's', ' ', '=', ' ']
}

/// A filename the descriptor text can carry verbatim: quoting it needs no
/// escape, and it cannot end its line early.
pub open spec fn spec_clean_filename(name: Seq<char>) -> bool {
    forall|i: int| 0 <= i < name.len() ==> name[i] != '"' && name[i] != '\n'
}

/// The descriptor text of a record.
pub open spec fn spec_encode_descriptor(
    filename: Seq<char>,
    filesize: int,
    chunk_size: int,
    num_of_chunks: int,
) -> Seq<char>
    recommends
        filesize >= 0,
        chunk_size >= 0,
        num_of_chunks >= 0,
{
    spec_key_filename() + filename + seq!['"', '\n'] + spec_key_filesize() + spec_decimal(filesize)
        + seq!['\n'] + spec_key_chunk_size() + spec_decimal(chunk_size) + seq!['\n']
        + spec_key_num_of_chunks() + spec_decimal(num_of_chunks) + seq!['\n']
}

/// True of the ten digit characters.
pub open spec fn spec_is_digit(c: char) -> bool {
    c == '0' || c == '1' || c == '2' || c == '3' || c == '4' || c == '5' || c == '6' || c == '7'
        || c == '8' || c == '9'
}

/// The value of a digit character.
pub open spec fn spec_digit_val(c: char) -> int
    recommends
        spec_is_digit(c),
{
    if c == '0' {
        0
    } else if c == '1' {
        1
    } else if c == '2' {
        2
    } else if c == '3' {
        3
    } else if c == '4' {
        4
    } else if c == '5' {
        5
    } else if c == '6' {
        6
    } else if c == '7' {
        7
    } else if c == '8' {
        8
    } else {
        9
    }
}

/// True when every character is a digit.
pub open spec fn spec_all_digits(s: Seq<char>) -> bool {
    forall|i: int| 0 <= i < s.len() ==> spec_is_digit(s[i])
}

/// The value of a run of digits, most significant first.
pub open spec fn spec_dec_val(s: Seq<char>) -> int
    recommends
        spec_all_digits(s),
    decreases s.len(),
{
    if s.len() == 0 {
        0
    } else {
        spec_dec_val(s.drop_last()) * 10 + spec_digit_val(s.last())
    }
}

/// The first position at or after `from` holding `c`, or the length when
/// there is none.
pub open spec fn spec_find(s: Seq<char>, from: int, c: char) -> int
    recommends
        0 <= from <= s.len(),
    decreases s.len() - from,
{
    if from < 0 || from >= s.len() {
        s.len() as int
    } else if s[from] == c {
        from
    } else {
        spec_find(s, from + 1, c)
    }
}

/// One numeric line: the key text at `at`, at least one digit, a newline.
/// Yields the value and the position just past the line.
pub open spec fn spec_parse_num_line(s: Seq<char>, at: int, key: Seq<char>) -> Option<(int, int)> {
    let kend = at + key.len();
    if !(at + key.len() <= s.len() && s.subrange(at, at + key.len()) == key) {
        None
    } else {
        let e = spec_find(s, kend, '\n');
        if e >= s.len() {
            None
        } else {
            let digits = s.subrange(kend, e);
            if digits.len() >= 1 && spec_all_digits(digits) {
                Some((spec_dec_val(digits), e + 1))
            } else {
                None
            }
        }
    }
}

/// The filename line: its key text at the start, the quoted name, a newline.
/// Yields the name and the position just past the line.
pub open spec fn spec_parse_name_line(s: Seq<char>) -> Option<(Seq<char>, int)> {
    if !(12 <= s.len() && s.subrange(0, 12) == spec_key_filename()) {
        None
    } else {
        let q = spec_find(s, 12, '"');
        if q + 1 < s.len() && s[q + 1] == '\n' {
            Some((s.subrange(12, q), q + 2))
        } else {
            None
        }
    }
}

/// The whole descriptor text: the four lines in order and nothing after
/// them. Yields the filename and the three recorded sizes.
pub open spec fn spec_parse_descriptor(s: Seq<char>) -> Option<(Seq<char>, int, int, int)> {
    match spec_parse_name_line(s) {
        None => None,
        Some((name, p1)) => match spec_parse_num_line(s, p1, spec_key_filesize()) {
            None => None,
            Some((filesize, p2)) => match spec_parse_num_line(s, p2, spec_key_chunk_size()) {
                None => None,
                Some((chunk_size, p3)) => match spec_parse_num_line(
                    s,
                    p3,
                    spec_key_num_of_chunks(),
                ) {
                    None => None,
                    Some((num_of_chunks, p4)) => if p4 == s.len() {
                        Some((name, filesize, chunk_size, num_of_chunks))
                    } else {
                        None
                    },
                },
            },
        },
    }
}

/// Decimal text is made of digits alone, and never empty.
pub proof fn lemma_decimal_digits(n: int)
    requires
        n >= 0,
    ensures
        spec_all_digits(spec_decimal(n)),
        spec_decimal(n).len() >= 1,
    decreases n,
{
    if n <= 9 {
        assert(spec_is_digit(spec_digit_char(n)));
    } else {
        lemma_decimal_digits(n / 10);
        assert(spec_is_digit(spec_digit_char(n % 10)));
        assert(forall|i: int|
            0 <= i < spec_decimal(n).len() - 1 ==> spec_decimal(n)[i] == spec_decimal(n / 10)[i]);
    }
}

/// Reading decimal text back gives the value it was printed from.
pub proof fn lemma_dec_val_of_decimal(n: int)
    requires
        n >= 0,
    ensures
        spec_dec_val(spec_decimal(n)) == n,
    decreases n,
{
    if n <= 9 {
        assert(spec_decimal(n).drop_last() =~= Seq::<char>::empty());
        assert(spec_dec_val(Seq::<char>::empty()) == 0);
        assert(spec_decimal(n).last() == spec_digit_char(n));
    } else {
        lemma_dec_val_of_decimal(n / 10);
        assert(spec_decimal(n).drop_last() =~= spec_decimal(n / 10));
        assert(spec_decimal(n).last() == spec_digit_char(n % 10));
    }
}

/// What `spec_find` returns: the first occurrence at or after `from`, or the
/// length when the character does not occur there.
pub proof fn lemma_find_properties(s: Seq<char>, from: int, c: char)
    requires
        0 <= from <= s.len(),
    ensures
        from <= spec_find(s, from, c) <= s.len(),
        spec_find(s, from, c) < s.len() ==> s[spec_find(s, from, c)] == c,
        forall|k: int| from <= k < spec_find(s, from, c) ==> s[k] != c,
    decreases s.len() - from,
{
    if from < s.len() && s[from] != c {
        lemma_find_properties(s, from + 1, c);
    }
}

/// Digits are neither quotes nor line breaks.
proof fn lemma_digit_is_plain(c: char)
    requires
        spec_is_digit(c),
    ensures
        c != '"' && c != '\n',
{
}

/// A numeric line parses back to the value it was printed from, wherever it
/// stands in the text.
proof fn lemma_parse_num_line_exact(s: Seq<char>, at: int, key: Seq<char>, value: int)
    requires
        0 <= at,
        value >= 0,
        at + key.len() + spec_decimal(value).len() < s.len(),
        s.subrange(at, at + key.len()) == key,
        s.subrange(at + key.len(), at + key.len() + spec_decimal(value).len()) == spec_decimal(
            value,
        ),
        s[at + key.len() + spec_decimal(value).len()] == '\n',
    ensures
        spec_parse_num_line(s, at, key) == Some(
            (value, at + key.len() + spec_decimal(value).len() + 1),
        ),
{
    let kend = at + key.len();
    let d = spec_decimal(value);
    lemma_decimal_digits(value);
    assert forall|k: int| kend <= k < kend + d.len() implies s[k] != '\n' by {
        assert(s[k] == s.subrange(kend, kend + d.len())[k - kend]);
        lemma_digit_is_plain(d[k - kend]);
    }
    lemma_find_at(s, kend, '\n', kend + d.len());
    assert(s.subrange(kend, spec_find(s, kend, '\n')) == d);
    lemma_dec_val_of_decimal(value);
}

/// When `c` stands at `j` and nowhere earlier in the searched range, the
/// search finds exactly `j`.
pub proof fn lemma_find_at(s: Seq<char>, from: int, c: char, j: int)
    requires
        0 <= from <= j < s.len(),
        s[j] == c,
        forall|k: int| from <= k < j ==> s[k] != c,
    ensures
        spec_find(s, from, c) == j,
{
    lemma_find_properties(s, from, c);
    let r = spec_find(s, from, c);
    if r < j {
        assert(s[r] != c);
    }
    if r > j {
        assert(s[j] != c);
    }
}

/// Round trip: the descriptor text of a record parses back to exactly that
/// record, for every filename its quoting can carry verbatim.
#[verifier::rlimit(100)]
pub proof fn lemma_descriptor_round_trip(
    name: Seq<char>,
    filesize: int,
    chunk_size: int,
    num_of_chunks: int,
)
    requires
        spec_clean_filename(name),
        filesize >= 0,
        chunk_size >= 0,
        num_of_chunks >= 0,
    ensures
        spec_parse_descriptor(spec_encode_descriptor(name, filesize, chunk_size, num_of_chunks))
            == Some((name, filesize, chunk_size, num_of_chunks)),
{
    let s = spec_encode_descriptor(name, filesize, chunk_size, num_of_chunks);
    let d1 = spec_decimal(filesize);
    let d2 = spec_decimal(chunk_size);
    let d3 = spec_decimal(num_of_chunks);
    let a = 12int;
    let b = a + name.len();
    let p1 = b + 2;
    let dig1 = p1 + 11;
    let nl1 = dig1 + d1.len();
    let p2 = nl1 + 1;
    let dig2 = p2 + 13;
    let nl2 = dig2 + d2.len();
    let p3 = nl2 + 1;
    let dig3 = p3 + 16;
    let nl3 = dig3 + d3.len();
    lemma_decimal_digits(filesize);
    lemma_decimal_digits(chunk_size);
    lemma_decimal_digits(num_of_chunks);
    assert(s.len() == nl3 + 1);
    assert(s.subrange(0, a) =~= spec_key_filename());
    assert(s.subrange(a, b) =~= name);
    assert(s[b] == '"');
    assert(s[b + 1] == '\n');
    assert(s.subrange(p1, dig1) =~= spec_key_filesize());
    assert(s.subrange(dig1, nl1) =~= d1);
    assert(s[nl1] == '\n');
    assert(s.subrange(p2, dig2) =~= spec_key_chunk_size());
    assert(s.subrange(dig2, nl2) =~= d2);
    assert(s[nl2] == '\n');
    assert(s.subrange(p3, dig3) =~= spec_key_num_of_chunks());
    assert(s.subrange(dig3, nl3) =~= d3);
    assert(s[nl3] == '\n');

    assert forall|k: int| a <= k < b implies s[k] != '"' by {
        assert(s[k] == s.subrange(a, b)[k - a]);
    }
    lemma_find_at(s, 12, '"', b);
    assert(s.subrange(12, b) == name);
    assert(spec_parse_name_line(s) == Some((name, p1)));

    lemma_parse_num_line_exact(s, p1, spec_key_filesize(), filesize);
    assert(spec_parse_num_line(s, p1, spec_key_filesize()) == Some((filesize, p2)));
    lemma_parse_num_line_exact(s, p2, spec_key_chunk_size(), chunk_size);
    assert(spec_parse_num_line(s, p2, spec_key_chunk_size()) == Some((chunk_size, p3)));
    lemma_parse_num_line_exact(s, p3, spec_key_num_of_chunks(), num_of_chunks);
    assert(spec_parse_num_line(s, p3, spec_key_num_of_chunks()) == Some(
        (num_of_chunks, s.len() as int),
    ));
}

/// The digit values any character can stand for lie between 0 and 9.
proof fn lemma_digit_val_bounds(c: char)
    ensures
        0 <= spec_digit_val(c) <= 9,
{
}

/// The value of a run of digits is never negative.
proof fn lemma_dec_val_nonneg(s: Seq<char>)
    ensures
        spec_dec_val(s) >= 0,
    decreases s.len(),
{
    if s.len() > 0 {
        lemma_dec_val_nonneg(s.drop_last());
        lemma_digit_val_bounds(s.last());
    }
}

/// Reading more digits can only grow the value.
proof fn lemma_dec_val_prefix(s: Seq<char>, k: int)
    requires
        0 <= k <= s.len(),
    ensures
        spec_dec_val(s) >= spec_dec_val(s.take(k)),
    decreases s.len() - k,
{
    if k == s.len() {
        assert(s.take(k) =~= s);
    } else {
        lemma_dec_val_prefix(s, k + 1);
        assert(s.take(k + 1).drop_last() =~= s.take(k));
        lemma_dec_val_nonneg(s.take(k));
        lemma_digit_val_bounds(s[k]);
    }
}

/// The characters of a string, one by one.
fn str_chars(text: &str) -> (v: Vec<char>)
    ensures
        v@ == text@,
{
    let len = text.unicode_len();
    let mut v: Vec<char> = Vec::new();
    let mut i: usize = 0;
    while i < len
        invariant
            i <= len,
            len == text@.len(),
            v@ == text@.take(i as int),
        decreases len - i,
    {
        v.push(text.get_char(i));
        proof {
            assert(v@ =~= text@.take(i + 1));
        }
        i = i + 1;
    }
    proof {
        assert(text@.take(len as int) =~= text@);
    }
    v
}

/// Tests whether the text carries `key` starting at `at`.
fn match_key(v: &Vec<char>, at: usize, key: &str) -> (r: bool)
    requires
        at <= v@.len(),
    ensures
        r == (at + key@.len() <= v@.len() && v@.subrange(at as int, at + key@.len()) == key@),
{
    let klen = key.unicode_len();
    if v.len() - at < klen {
        return false;
    }
    let mut i: usize = 0;
    while i < klen
        invariant
            i <= klen,
            klen == key@.len(),
            at + klen <= v@.len(),
            v@.len() <= usize::MAX,
            forall|j: int| 0 <= j < i ==> v@[at + j] == key@[j],
        decreases klen - i,
    {
        if v[at + i] != key.get_char(i) {
            proof {
                assert(v@.subrange(at as int, at + key@.len())[i as int] == v@[at + i]);
            }
            return false;
        }
        i = i + 1;
    }
    proof {
        assert(v@.subrange(at as int, at + key@.len()) =~= key@);
    }
    true
}

/// The first position at or after `from` holding `c`, or the length when
/// there is none.
fn find_char(v: &Vec<char>, from: usize, c: char) -> (r: usize)
    requires
        from <= v@.len(),
    ensures
        r == spec_find(v@, from as int, c),
{
    let mut i = from;
    while i < v.len()
        invariant
            from <= i <= v@.len(),
            spec_find(v@, from as int, c) == spec_find(v@, i as int, c),
        decreases v@.len() - i,
    {
        if v[i] == c {
            return i;
        }
        i = i + 1;
    }
    i
}

/// The value of one digit character, if it is one.
fn digit_val_of(c: char) -> (r: Option<usize>)
    ensures
        r is Some <==> spec_is_digit(c),
        r matches Some(d) ==> d == spec_digit_val(c),
{
    if c == '0' {
        Some(0)
    } else if c == '1' {
        Some(1)
    } else if c == '2' {
        Some(2)
    } else if c == '3' {
        Some(3)
    } else if c == '4' {
        Some(4)
    } else if c == '5' {
        Some(5)
    } else if c == '6' {
        Some(6)
    } else if c == '7' {
        Some(7)
    } else if c == '8' {
        Some(8)
    } else if c == '9' {
        Some(9)
    } else {
        None
    }
}

/// Reads the digits between `from` and `to` as a value, turning the run away
/// when it is empty, holds a non-digit, or does not fit.
fn parse_digits(v: &Vec<char>, from: usize, to: usize) -> (r: Option<usize>)
    requires
        from <= to <= v@.len(),
    ensures
        ({
            let digits = v@.subrange(from as int, to as int);
            &&& (r is Some <==> digits.len() >= 1 && spec_all_digits(digits) && spec_dec_val(
                digits,
            ) <= usize::MAX)
            &&& (r matches Some(val) ==> val == spec_dec_val(digits))
        }),
{
    let ghost digits = v@.subrange(from as int, to as int);
    if from == to {
        return None;
    }
    let mut val: usize = 0;
    let mut j = from;
    while j < to
        invariant
            from <= j <= to <= v@.len(),
            digits == v@.subrange(from as int, to as int),
            spec_all_digits(v@.subrange(from as int, j as int)),
            val == spec_dec_val(v@.subrange(from as int, j as int)),
        decreases to - j,
    {
        let ghost prefix = v@.subrange(from as int, j as int);
        proof {
            assert(v@.subrange(from as int, j + 1).drop_last() =~= prefix);
            assert(digits[j - from] == v@[j as int]);
        }
        match digit_val_of(v[j]) {
            None => {
                return None;
            },
            Some(dv) => {
                if val > (usize::MAX - dv) / 10 {
                    proof {
                        let m = (usize::MAX - dv) as int;
                        assert(m == (m / 10) * 10 + m % 10);
                        assert(val * 10 + dv > usize::MAX);
                        assert(digits.take(j + 1 - from) =~= v@.subrange(from as int, j + 1));
                        lemma_dec_val_prefix(digits, j + 1 - from);
                    }
                    return None;
                }
                proof {
                    let m = (usize::MAX - dv) as int;
                    assert(m == (m / 10) * 10 + m % 10);
                    assert(val * 10 + dv <= usize::MAX);
                }
                val = val * 10 + dv;
                j = j + 1;
            },
        }
    }
    proof {
        assert(v@.subrange(from as int, j as int) =~= digits);
    }
    Some(val)
}

/// Reads one numeric line, as `spec_parse_num_line` describes it, turning
/// away a value the machine cannot hold.
fn parse_num_line(v: &Vec<char>, at: usize, key: &str) -> (r: Option<(usize, usize)>)
    requires
        at <= v@.len(),
    ensures
        ({
            let parsed = spec_parse_num_line(v@, at as int, key@);
            match parsed {
                None => r is None,
                Some(t) => if t.0 <= usize::MAX {
                    r == Some((t.0 as usize, t.1 as usize)) && 0 <= t.0 && at < t.1 <= v@.len()
                } else {
                    r is None
                },
            }
        }),
{
    if !match_key(v, at, key) {
        return None;
    }
    let total = v.len();
    let kend = at + key.unicode_len();
    let e = find_char(v, kend, '\n');
    proof {
        lemma_find_properties(v@, kend as int, '\n');
    }
    if e >= total {
        return None;
    }
    match parse_digits(v, kend, e) {
        None => None,
        Some(val) => Some((val, e + 1)),
    }
}

/// Reads a descriptor from the text of its file. `None` comes back exactly
/// when the text does not follow the descriptor grammar, or records a size
/// the machine cannot hold.
pub fn read_metadata(text: &str) -> (r: Option<Metadata>)
    ensures
        ({
            let parsed = spec_parse_descriptor(text@);
            match parsed {
                None => r is None,
                Some(t) => if t.1 <= usize::MAX && t.2 <= usize::MAX && t.3 <= usize::MAX {
                    &&& r is Some
                    &&& r->0.filename@ == t.0
                    &&& r->0.filesize == t.1
                    &&& r->0.chunk_size == t.2
                    &&& r->0.num_of_chunks == t.3
                } else {
                    r is None
                },
            }
        }),
{
    proof {
        reveal_strlit("filename = \"");
        reveal_strlit("filesize = ");
        reveal_strlit("chunk_size = ");
        reveal_strlit("num_of_chunks = ");
        assert("filename = \""@ =~= spec_key_filename());
        assert("filesize = "@ =~= spec_key_filesize());
        assert("chunk_size = "@ =~= spec_key_chunk_size());
        assert("num_of_chunks = "@ =~= spec_key_num_of_chunks());
    }
    let v = str_chars(text);
    if !match_key(&v, 0, "filename = \"") {
        return None;
    }
    let q = find_char(&v, 12, '"');
    if q >= v.len() {
        return None;
    }
    if q + 1 >= v.len() {
        return None;
    }
    if v[q + 1] != '\n' {
        return None;
    }
    proof {
        lemma_find_properties(v@, 12, '"');
    }
    let name = text.substring_char(12, q).to_owned();
    let p1 = q + 2;
    let (filesize, p2) = match parse_num_line(&v, p1, "filesize = ") {
        None => {
            return None;
        },
        Some(t) => t,
    };
    let (chunk_size, p3) = match parse_num_line(&v, p2, "chunk_size = ") {
        None => {
            return None;
        },
        Some(t) => t,
    };
    let (num_of_chunks, p4) = match parse_num_line(&v, p3, "num_of_chunks = ") {
        None => {
            return None;
        },
        Some(t) => t,
    };
    if p4 != v.len() {
        return None;
    }
    Some(generate_metadata(name, filesize, chunk_size, num_of_chunks))
}

/// Writes a descriptor as the text of its file.
pub fn encode_metadata(metadata: &Metadata) -> (s: String)
    ensures
        s@ == spec_encode_descriptor(
            metadata.filename@,
            metadata.filesize as int,
            metadata.chunk_size as int,
            metadata.num_of_chunks as int,
        ),
{
    let mut s = String::from_str("filename = \"");
    s.append(metadata.filename.as_str());
    s.append("\"\n");
    s.append("filesize = ");
    let filesize_text = crate::naming::to_decimal(metadata.filesize);
    s.append(filesize_text.as_str());
    s.append("\n");
    s.append("chunk_size = ");
    let chunk_size_text = crate::naming::to_decimal(metadata.chunk_size);
    s.append(chunk_size_text.as_str());
    s.append("\n");
    s.append("num_of_chunks = ");
    let num_text = crate::naming::to_decimal(metadata.num_of_chunks);
    s.append(num_text.as_str());
    s.append("\n");
    proof {
        reveal_strlit("filename = \"");
        reveal_strlit("\"\n");
        reveal_strlit("filesize = ");
        reveal_strlit("chunk_size = ");
        reveal_strlit("num_of_chunks = ");
        reveal_strlit("\n");
        assert(s@ =~= spec_encode_descriptor(
            metadata.filename@,
            metadata.filesize as int,
            metadata.chunk_size as int,
            metadata.num_of_chunks as int,
        ));
    }
    s
}

/// Tests whether the descriptor text can carry this filename verbatim, so
/// that parsing the descriptor gives the name back unchanged.
pub fn is_clean_filename(name: &str) -> (r: bool)
    ensures
        r == spec_clean_filename(name@),
{
    let len = name.unicode_len();
    let mut i: usize = 0;
    while i < len
        invariant
            i <= len,
            len == name@.len(),
            forall|j: int| 0 <= j < i ==> name@[j] != '"' && name@[j] != '\n',
        decreases len - i,
    {
        let c = name.get_char(i);
        if c == '"' || c == '\n' {
            return false;
        }
        i = i + 1;
    }
    true
}

} // verus!
