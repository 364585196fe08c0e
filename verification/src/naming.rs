//! File-name conventions: chunk files are named `"<base>.<ordinal>"` with a
//! two-digit, 1-based, zero-padded ordinal, and the descriptor sits beside
//! them under the reserved `nfl` extension. A verified decimal printer keeps
//! the ordinal text exact.

use vstd::prelude::*;

verus! {

use vstd::string::*;

/// The reserved extension of the persisted descriptor file.
pub const METADATA_FILE_EXTENSION: &'static str = "nfl";

/// The digit character of a value between 0 and 9.
pub open spec fn spec_digit_char(d: int) -> char
    recommends
        0 <= d <= 9,
{
    if d == 0 {
        '0'
    } else if d == 1 {
        '1'
    } else if d == 2 {
        '2'
    } else if d == 3 {
        '3'
    } else if d == 4 {
        '4'
    } else if d == 5 {
        '5'
    } else if d == 6 {
        '6'
    } else if d == 7 {
        '7'
    } else if d == 8 {
        '8'
    } else {
        '9'
    }
}

/// The decimal digits of a non-negative value, most significant first, with
/// no leading zero except for the value zero itself.
pub open spec fn spec_decimal(n: int) -> Seq<char>
    recommends
        n >= 0,
    decreases n,
{
    if n <= 9 {
        seq![spec_digit_char(n)]
    } else {
        spec_decimal(n / 10).push(spec_digit_char(n % 10))
    }
}

/// The two-digit zero-padded ordinal text: values below ten get a leading
/// zero, larger values keep their full decimal form.
pub open spec fn spec_ordinal(n: int) -> Seq<char>
    recommends
        n >= 0,
{
    if n <= 9 {
        seq!['0'] + spec_decimal(n)
    } else {
        spec_decimal(n)
    }
}

/// The name of the chunk file holding chunk `index` (0-based): the base name,
/// a dot, and the 1-based ordinal.
pub open spec fn spec_chunk_filename(base: Seq<char>, index: int) -> Seq<char>
    recommends
        index >= 0,
{
    base + seq!['.'] + spec_ordinal(index + 1)
}

/// The name of the descriptor file beside the chunks: the base name, a dot,
/// and the reserved extension.
pub open spec fn spec_metadata_filename(base: Seq<char>) -> Seq<char> {
    base + seq!['.', 'n', 'f', 'l']
}

/// True when the path ends in the reserved descriptor extension, so that a
/// caller should reconstruct rather than split.
pub open spec fn spec_has_metadata_extension(path: Seq<char>) -> bool {
    path.len() >= 4 && path.subrange(path.len() - 4, path.len() as int) == seq!['.', 'n', 'f', 'l']
}

/// The index of the last path separator, or -1 when there is none.
pub open spec fn spec_last_slash(path: Seq<char>) -> int
    decreases path.len(),
{
    if path.len() == 0 {
        -1
    } else if path.last() == '/' {
        path.len() - 1
    } else {
        spec_last_slash(path.drop_last())
    }
}

/// The directory part of a path: everything before the last separator, or
/// empty when the path is a bare file name.
pub open spec fn spec_dir_of(path: Seq<char>) -> Seq<char> {
    if spec_last_slash(path) >= 0 {
        path.subrange(0, spec_last_slash(path))
    } else {
        Seq::empty()
    }
}

/// The one-character text of a decimal digit.
fn digit_str(d: usize) -> (s: &'static str)
    requires
        d <= 9,
    ensures
        s@ == seq![spec_digit_char(d as int)],
{
    proof {
        reveal_strlit("0");
        reveal_strlit("1");
        reveal_strlit("2");
        reveal_strlit("3");
        reveal_strlit("4");
        reveal_strlit("5");
        reveal_strlit("6");
        reveal_strlit("7");
        reveal_strlit("8");
        reveal_strlit("9");
    }
    let s = if d == 0 {
        "0"
    } else if d == 1 {
        "1"
    } else if d == 2 {
        "2"
    } else if d == 3 {
        "3"
    } else if d == 4 {
        "4"
    } else if d == 5 {
        "5"
    } else if d == 6 {
        "6"
    } else if d == 7 {
        "7"
    } else if d == 8 {
        "8"
    } else {
        "9"
    };
    proof {
        assert(s@ =~= seq![spec_digit_char(d as int)]);
    }
    s
}

/// Prints a value in decimal.
pub fn to_decimal(n: usize) -> (s: String)
    ensures
        s@ == spec_decimal(n as int),
{
    let mut m = n;
    let mut tail = String::new();
    while m > 9
        invariant
            spec_decimal(n as int) == spec_decimal(m as int) + tail@,
        decreases m,
    {
        let ghost m_old = m as int;
        let ghost tail_old = tail@;
        let digit = digit_str(m % 10);
        m = m / 10;
        let mut s = String::from_str(digit);
        s.append(tail.as_str());
        tail = s;
        proof {
            assert(spec_decimal(m_old) == spec_decimal(m_old / 10) + seq![
                spec_digit_char(m_old % 10),
            ]);
            assert(spec_decimal(m as int) + tail@ =~= (spec_decimal(m as int) + seq![
                spec_digit_char(m_old % 10),
            ]) + tail_old);
        }
    }
    let mut s = String::from_str(digit_str(m));
    s.append(tail.as_str());
    proof {
        assert(s@ =~= spec_decimal(m as int) + tail@);
    }
    s
}

/// Prints a 1-based ordinal as at least two digits, zero-padded.
pub fn to_ordinal(n: usize) -> (s: String)
    ensures
        s@ == spec_ordinal(n as int),
{
    proof {
        reveal_strlit("0");
    }
    let digits = to_decimal(n);
    if n <= 9 {
        let mut s = String::from_str("0");
        s.append(digits.as_str());
        s
    } else {
        digits
    }
}

/// The chunk file name `"<base>.<ordinal>"` for chunk `index` (0-based).
pub fn chunk_filename(base_name: &str, index: usize) -> (name: String)
    requires
        index < usize::MAX,
    ensures
        name@ == spec_chunk_filename(base_name@, index as int),
{
    proof {
        reveal_strlit(".");
    }
    let mut name = base_name.to_owned();
    name.append(".");
    let ordinal = to_ordinal(index + 1);
    name.append(ordinal.as_str());
    proof {
        assert(name@ =~= spec_chunk_filename(base_name@, index as int));
    }
    name
}

/// The descriptor file name `"<base>.nfl"`.
pub fn metadata_filename(base_name: &str) -> (name: String)
    ensures
        name@ == spec_metadata_filename(base_name@),
{
    proof {
        reveal_strlit(".");
        reveal_strlit("nfl");
    }
    let mut name = base_name.to_owned();
    name.append(".");
    name.append(METADATA_FILE_EXTENSION);
    proof {
        assert(name@ =~= spec_metadata_filename(base_name@));
    }
    name
}

/// Decides dispatch for a given path: reconstruct when it carries the
/// reserved descriptor extension, split otherwise.
pub fn has_metadata_extension(path_str: &str) -> (r: bool)
    ensures
        r == spec_has_metadata_extension(path_str@),
{
    let len = path_str.unicode_len();
    if len < 4 {
        return false;
    }
    let r = path_str.get_char(len - 4) == '.' && path_str.get_char(len - 3) == 'n'
        && path_str.get_char(len - 2) == 'f' && path_str.get_char(len - 1) == 'l';
    proof {
        if r {
            assert(path_str@.subrange(path_str@.len() - 4, path_str@.len() as int) =~= seq![
                '.',
                'n',
                'f',
                'l',
            ]);
        } else {
            assert(path_str@.subrange(path_str@.len() - 4, path_str@.len() as int)[0] == path_str@[
                path_str@.len() - 4
            ]);
        }
    }
    r
}

/// Strips the last path component, leaving the directory, as the surrounding
/// binary needs it to probe for chunk files beside the descriptor.
pub fn get_dir(path_str: &str) -> (dir: String)
    ensures
        dir@ == spec_dir_of(path_str@),
{
    let len = path_str.unicode_len();
    let mut i = len;
    proof {
        assert(path_str@.take(len as int) =~= path_str@);
    }
    while i > 0
        invariant
            i <= len,
            len == path_str@.len(),
            spec_last_slash(path_str@) == spec_last_slash(path_str@.take(i as int)),
        decreases i,
    {
        let ghost prefix = path_str@.take(i as int);
        if path_str.get_char(i - 1) == '/' {
            proof {
                assert(prefix.last() == '/');
                assert(spec_last_slash(prefix) == i - 1);
            }
            let d = path_str.substring_char(0, i - 1);
            proof {
                assert(d@ == spec_dir_of(path_str@));
            }
            return d.to_owned();
        }
        proof {
            assert(prefix.last() != '/');
            assert(prefix.drop_last() =~= path_str@.take(i - 1));
        }
        i = i - 1;
    }
    proof {
        assert(path_str@.take(0) =~= Seq::<char>::empty());
        assert(spec_last_slash(Seq::<char>::empty()) == -1);
    }
    String::new()
}

} // verus!
