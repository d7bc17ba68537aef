//! Reading a TSPLIB instance from the lines of its file: header lines
//! `KEY: VALUE` up to `NODE_COORD_SECTION`, then one `index x y` line per
//! city, up to `EOF` or the end of the file.

use crate::instance_data::{
    coordinates_error, DataError, EdgeWeightType, FileData, InstanceData, Metadata,
};
use vstd::prelude::*;
use vstd::string::*;

verus! {

/// ASCII white space.
pub open spec fn is_ws(c: char) -> bool {
    c == ' ' || c == '\t' || c == '\n' || c == '\r' || c == '\u{0B}' || c == '\u{0C}'
}

/// The first position from `i` on that holds no white space (or the end).
pub open spec fn skip_ws(s: Seq<char>, i: int) -> int
    decreases s.len() - i,
{
    if i < 0 || i >= s.len() || !is_ws(s[i]) {
        i
    } else {
        skip_ws(s, i + 1)
    }
}

/// The first position from `i` on that holds white space (or the end).
pub open spec fn token_end(s: Seq<char>, i: int) -> int
    decreases s.len() - i,
{
    if i < 0 || i >= s.len() || is_ws(s[i]) {
        i
    } else {
        token_end(s, i + 1)
    }
}

/// The end of `s[..j]` once white space at its end is cut off.
pub open spec fn trim_back(s: Seq<char>, j: int) -> int
    decreases j,
{
    if j <= 0 || j > s.len() || !is_ws(s[j - 1]) {
        j
    } else {
        trim_back(s, j - 1)
    }
}

/// `s` without white space at either end.
pub open spec fn trimmed(s: Seq<char>) -> Seq<char> {
    let a = skip_ws(s, 0);
    let b = trim_back(s, s.len() as int);
    if b <= a {
        Seq::empty()
    } else {
        s.subrange(a, b)
    }
}

/// The first position from `i` on where the separator `": "` starts (or
/// the end).
pub open spec fn find_sep(s: Seq<char>, i: int) -> int
    decreases s.len() - i,
{
    if i < 0 || i + 1 >= s.len() {
        s.len() as int
    } else if s[i] == ':' && s[i + 1] == ' ' {
        i
    } else {
        find_sep(s, i + 1)
    }
}

/// The key of a header line: what stands before the first `": "`, trimmed.
pub open spec fn key_of(l: Seq<char>) -> Seq<char> {
    trimmed(l.subrange(0, find_sep(l, 0)))
}

/// The header line has a value after its key.
pub open spec fn has_value(l: Seq<char>) -> bool {
    find_sep(l, 0) < l.len()
}

/// The value of a header line: what stands between the first `": "` and
/// the next one (or the end).
pub open spec fn value_of(l: Seq<char>) -> Seq<char> {
    let v = find_sep(l, 0) + 2;
    l.subrange(v, find_sep(l, v))
}

pub open spec fn is_digit(c: char) -> bool {
    '0' <= c <= '9'
}

/// One or more decimal digits.
pub open spec fn all_digits(s: Seq<char>) -> bool {
    s.len() > 0 && forall|i: int| 0 <= i < s.len() ==> is_digit(#[trigger] s[i])
}

/// The number that the decimal digits of `s` write.
pub open spec fn digits_value(s: Seq<char>) -> int
    decreases s.len(),
{
    if s.len() == 0 {
        0
    } else {
        digits_value(s.drop_last()) * 10 + (s.last() as int - '0' as int)
    }
}

/// `s` read as a `usize`: an optional `+` and decimal digits.
pub open spec fn usize_of(s: Seq<char>) -> Option<int> {
    let t = if s.len() > 0 && s[0] == '+' {
        s.drop_first()
    } else {
        s
    };
    if all_digits(t) && digits_value(t) <= usize::MAX {
        Some(digits_value(t))
    } else {
        None
    }
}

/// `s` read as an `i32`: an optional sign and decimal digits.
pub open spec fn i32_of(s: Seq<char>) -> Option<i32> {
    if s.len() > 0 && s[0] == '-' {
        let t = s.drop_first();
        if all_digits(t) && digits_value(t) <= 0x8000_0000 {
            Some((-digits_value(t)) as i32)
        } else {
            None
        }
    } else {
        let t = if s.len() > 0 && s[0] == '+' {
            s.drop_first()
        } else {
            s
        };
        if all_digits(t) && digits_value(t) <= i32::MAX {
            Some(digits_value(t) as i32)
        } else {
            None
        }
    }
}

/// The coordinates on a line `index x y`: its second and third fields,
/// separated by white space; further fields are ignored.
pub open spec fn coord_of(l: Seq<char>) -> Option<(i32, i32)> {
    let a0 = skip_ws(l, 0);
    let a1 = token_end(l, a0);
    let b0 = skip_ws(l, a1);
    let b1 = token_end(l, b0);
    let c0 = skip_ws(l, b1);
    let c1 = token_end(l, c0);
    if a0 < a1 && b0 < b1 && c0 < c1 {
        match (i32_of(l.subrange(b0, b1)), i32_of(l.subrange(c0, c1))) {
            (Some(x), Some(y)) => Some((x, y)),
            _ => None,
        }
    } else {
        None
    }
}

/// Why the lines of a file make no instance.
#[derive(Debug, PartialEq, Eq, Structural)]
pub enum ReadError {
    /// A `NAME`, `DIMENSION` or `EDGE_WEIGHT_TYPE` line without a value, or
    /// a dimension that is no number.
    MalformedHeader,
    /// An edge weight type other than `EUC_2D`.
    UnknownEdgeWeightType,
    /// No `NODE_COORD_SECTION` line.
    MissingCoordSection,
    /// A line of the coordinate section without two integer coordinates.
    MalformedCoordinates,
    /// No `EDGE_WEIGHT_TYPE` line before the coordinate section.
    MissingEdgeWeightType,
    /// A number of cities other than the dimension.
    DimensionMismatch,
    /// The cities make no instance.
    Data(DataError),
}

/// What the header lines read so far have set: the name, the dimension and
/// whether the edge weight type `EUC_2D` was given.
pub type Header = (Seq<char>, int, bool);

/// The header after one more line.
pub open spec fn apply_header_line(h: Header, l: Seq<char>) -> Result<Header, ReadError> {
    let key = key_of(l);
    if key == "NAME"@ {
        if has_value(l) {
            Ok((value_of(l), h.1, h.2))
        } else {
            Err(ReadError::MalformedHeader)
        }
    } else if key == "DIMENSION"@ {
        if has_value(l) && usize_of(value_of(l)) is Some {
            Ok((h.0, usize_of(value_of(l))->Some_0, h.2))
        } else {
            Err(ReadError::MalformedHeader)
        }
    } else if key == "EDGE_WEIGHT_TYPE"@ {
        if !has_value(l) {
            Err(ReadError::MalformedHeader)
        } else if value_of(l) == "EUC_2D"@ {
            Ok((h.0, h.1, true))
        } else {
            Err(ReadError::UnknownEdgeWeightType)
        }
    } else {
        Ok(h)
    }
}

/// Reads the header from line `k` on, then the coordinate section.
pub open spec fn read_header(lines: Seq<String>, k: int, h: Header) -> Result<
    (Header, Seq<(i32, i32)>),
    ReadError,
>
    decreases lines.len() - k,
{
    if k < 0 || k >= lines.len() {
        Err(ReadError::MissingCoordSection)
    } else if key_of(lines[k]@) == "NODE_COORD_SECTION"@ {
        read_coords(lines, k + 1, h, Seq::empty())
    } else {
        match apply_header_line(h, lines[k]@) {
            Ok(h2) => read_header(lines, k + 1, h2),
            Err(e) => Err(e),
        }
    }
}

/// Reads coordinate lines from line `k` on, after `nodes`, up to a line
/// `EOF` or the end.
pub open spec fn read_coords(
    lines: Seq<String>,
    k: int,
    h: Header,
    nodes: Seq<(i32, i32)>,
) -> Result<(Header, Seq<(i32, i32)>), ReadError>
    decreases lines.len() - k,
{
    if k < 0 || k >= lines.len() || trimmed(lines[k]@) == "EOF"@ {
        Ok((h, nodes))
    } else {
        match coord_of(lines[k]@) {
            Some(p) => read_coords(lines, k + 1, h, nodes.push(p)),
            None => Err(ReadError::MalformedCoordinates),
        }
    }
}

/// The header and cities of a file, or why it is malformed.
pub open spec fn read_lines(lines: Seq<String>) -> Result<(Header, Seq<(i32, i32)>), ReadError> {
    read_header(lines, 0, (Seq::empty(), 0, false))
}

/// Why the lines of a file make no instance, if they do not.
pub open spec fn instance_error(lines: Seq<String>) -> Option<ReadError> {
    match read_lines(lines) {
        Err(e) => Some(e),
        Ok((h, nodes)) => if !h.2 {
            Some(ReadError::MissingEdgeWeightType)
        } else if nodes.len() != h.1 {
            Some(ReadError::DimensionMismatch)
        } else {
            match coordinates_error(nodes) {
                Some(d) => Some(ReadError::Data(d)),
                None => None,
            }
        },
    }
}

fn is_ws_char(c: char) -> (r: bool)
    ensures
        r == is_ws(c),
{
    c == ' ' || c == '\t' || c == '\n' || c == '\r' || c == '\u{0B}' || c == '\u{0C}'
}

fn skip_ws_at(s: &str, i: usize) -> (r: usize)
    requires
        i <= s@.len(),
    ensures
        r == skip_ws(s@, i as int),
        i <= r <= s@.len(),
{
    let n = s.unicode_len();
    let mut j = i;
    while j < n && is_ws_char(s.get_char(j))
        invariant
            n == s@.len(),
            i <= j <= n,
            skip_ws(s@, i as int) == skip_ws(s@, j as int),
        decreases n - j,
    {
        j = j + 1;
    }
    j
}

fn token_end_at(s: &str, i: usize) -> (r: usize)
    requires
        i <= s@.len(),
    ensures
        r == token_end(s@, i as int),
        i <= r <= s@.len(),
{
    let n = s.unicode_len();
    let mut j = i;
    while j < n && !is_ws_char(s.get_char(j))
        invariant
            n == s@.len(),
            i <= j <= n,
            token_end(s@, i as int) == token_end(s@, j as int),
        decreases n - j,
    {
        j = j + 1;
    }
    j
}

fn trim_back_at(s: &str, j: usize) -> (r: usize)
    requires
        j <= s@.len(),
    ensures
        r == trim_back(s@, j as int),
        r <= j,
{
    let mut k = j;
    while k > 0 && is_ws_char(s.get_char(k - 1))
        invariant
            k <= j <= s@.len(),
            trim_back(s@, j as int) == trim_back(s@, k as int),
        decreases k,
    {
        k = k - 1;
    }
    k
}

/// The bounds of `s` without white space at either end.
fn trim_bounds(s: &str) -> (r: (usize, usize))
    ensures
        r.0 <= r.1 <= s@.len(),
        trimmed(s@) == s@.subrange(r.0 as int, r.1 as int),
{
    let n = s.unicode_len();
    let a = skip_ws_at(s, 0);
    let b = trim_back_at(s, n);
    if b <= a {
        assert(s@.subrange(a as int, a as int) =~= Seq::<char>::empty());
        (a, a)
    } else {
        (a, b)
    }
}

fn find_sep_at(s: &str, i: usize) -> (r: usize)
    requires
        i <= s@.len(),
    ensures
        r == find_sep(s@, i as int),
        i <= r <= s@.len(),
{
    let n = s.unicode_len();
    let mut j = i;
    while n - j > 1
        invariant
            n == s@.len(),
            i <= j <= n,
            find_sep(s@, i as int) == find_sep(s@, j as int),
        decreases n - j,
    {
        if s.get_char(j) == ':' && s.get_char(j + 1) == ' ' {
            return j;
        }
        j = j + 1;
    }
    n
}

/// A separator found from `i` on is followed by a character.
proof fn lemma_find_sep_found(s: Seq<char>, i: int)
    requires
        0 <= i,
        find_sep(s, i) < s.len(),
    ensures
        find_sep(s, i) + 1 < s.len(),
    decreases s.len() - i,
{
    if i + 1 < s.len() && !(s[i] == ':' && s[i + 1] == ' ') {
        lemma_find_sep_found(s, i + 1);
    }
}

/// Whether `s[a..b]` is `lit`.
fn range_is(s: &str, a: usize, b: usize, lit: &str) -> (r: bool)
    requires
        a <= b <= s@.len(),
    ensures
        r == (s@.subrange(a as int, b as int) == lit@),
{
    let m = lit.unicode_len();
    if b - a != m {
        return false;
    }
    let mut i: usize = 0;
    while i < m
        invariant
            m == lit@.len() == b - a,
            a <= b <= s@.len(),
            i <= m,
            forall|k: int| 0 <= k < i ==> s@[a + k] == lit@[k],
        decreases m - i,
    {
        if s.get_char(a + i) != lit.get_char(i) {
            return false;
        }
        i = i + 1;
    }
    assert(s@.subrange(a as int, b as int) =~= lit@);
    true
}

/// The digits of `s[..k]` write no more than the digits of `s`.
proof fn lemma_digits_prefix(s: Seq<char>, k: int)
    requires
        all_digits(s),
        0 <= k <= s.len(),
    ensures
        0 <= digits_value(s.take(k)) <= digits_value(s),
    decreases s.len(),
{
    assert(s.take(s.len() as int) =~= s);
    lemma_digits_nonneg(s);
    if k < s.len() {
        let t = s.drop_last();
        if t.len() > 0 {
            assert(all_digits(t)) by {
                assert forall|i: int| 0 <= i < t.len() implies is_digit(#[trigger] t[i]) by {
                    assert(t[i] == s[i]);
                }
            }
            lemma_digits_prefix(t, k);
            assert(t.take(k) =~= s.take(k));
            lemma_digits_nonneg(t);
            assert(is_digit(s[s.len() - 1]));
        } else {
            assert(s.take(k) =~= Seq::<char>::empty());
        }
    }
}

proof fn lemma_digits_nonneg(s: Seq<char>)
    requires
        forall|i: int| 0 <= i < s.len() ==> is_digit(#[trigger] s[i]),
    ensures
        digits_value(s) >= 0,
    decreases s.len(),
{
    if s.len() > 0 {
        let t = s.drop_last();
        assert forall|i: int| 0 <= i < t.len() implies is_digit(#[trigger] t[i]) by {
            assert(t[i] == s[i]);
        }
        lemma_digits_nonneg(t);
        assert(is_digit(s[s.len() - 1]));
    }
}

/// The value of the digits `s[a..b]` when they are all digits and it is at
/// most `limit`.
fn digits_at(s: &str, a: usize, b: usize, limit: u64) -> (r: Option<u64>)
    requires
        a <= b <= s@.len(),
    ensures
        r is Some <==> all_digits(s@.subrange(a as int, b as int)) && digits_value(
            s@.subrange(a as int, b as int),
        ) <= limit,
        r is Some ==> r->Some_0 == digits_value(s@.subrange(a as int, b as int)),
{
    let ghost t = s@.subrange(a as int, b as int);
    if a == b {
        return None;
    }
    let mut acc: u64 = 0;
    let mut i: usize = a;
    while i < b
        invariant
            a < b <= s@.len(),
            t == s@.subrange(a as int, b as int),
            a <= i <= b,
            forall|k: int| 0 <= k < i - a ==> is_digit(#[trigger] t[k]),
            acc == digits_value(t.take(i - a)),
            acc <= limit,
        decreases b - i,
    {
        let c = s.get_char(i);
        if !('0' <= c && c <= '9') {
            assert(!is_digit(t[i - a]));
            return None;
        }
        let d = (c as u32 - '0' as u32) as u64;
        proof {
            assert(t.take(i - a + 1).drop_last() =~= t.take(i - a));
            assert(t.take(i - a + 1).last() == t[i - a]);
        }
        proof {
            if d <= limit {
                vstd::arithmetic::div_mod::lemma_fundamental_div_mod((limit - d) as int, 10);
                vstd::arithmetic::div_mod::lemma_mod_pos_bound((limit - d) as int, 10);
            }
        }
        if d > limit || acc > (limit - d) / 10 {
            proof {
                let q = if d <= limit { (limit - d) as int / 10 } else { 0 };
                assert(digits_value(t.take(i - a + 1)) > limit) by (nonlinear_arith)
                    requires
                        digits_value(t.take(i - a + 1)) == acc * 10 + d,
                        d > limit || (acc > q && (limit - d) < 10 * q + 10),
                        acc >= 0,
                ;
                assert forall|k: int| 0 <= k < i - a + 1 implies is_digit(#[trigger] t[k]) by {}
                if all_digits(t) {
                    lemma_digits_prefix(t, i - a + 1);
                }
            }
            return None;
        }
        proof {
            let q = (limit - d) as int / 10;
            assert(acc * 10 + d <= limit) by (nonlinear_arith)
                requires
                    acc <= q,
                    10 * q <= limit - d,
            ;
        }
        acc = acc * 10 + d;
        i = i + 1;
    }
    assert(t.take(b - a) =~= t);
    assert(all_digits(t));
    Some(acc)
}

/// `s[a..b]` read as a `usize`.
fn usize_at(s: &str, a: usize, b: usize) -> (r: Option<usize>)
    requires
        a <= b <= s@.len(),
    ensures
        r is Some <==> usize_of(s@.subrange(a as int, b as int)) is Some,
        r is Some ==> r->Some_0 == usize_of(s@.subrange(a as int, b as int))->Some_0,
{
    let ghost t = s@.subrange(a as int, b as int);
    let from = if a < b && s.get_char(a) == '+' {
        assert(s@.subrange(a + 1, b as int) =~= t.drop_first());
        a + 1
    } else {
        a
    };
    match digits_at(s, from, b, usize::MAX as u64) {
        Some(v) => Some(v as usize),
        None => None,
    }
}

/// `s[a..b]` read as an `i32`.
fn i32_at(s: &str, a: usize, b: usize) -> (r: Option<i32>)
    requires
        a <= b <= s@.len(),
    ensures
        r == i32_of(s@.subrange(a as int, b as int)),
{
    let ghost t = s@.subrange(a as int, b as int);
    if a < b && s.get_char(a) == '-' {
        assert(s@.subrange(a + 1, b as int) =~= t.drop_first());
        match digits_at(s, a + 1, b, 0x8000_0000) {
            Some(v) => {
                assert(v <= 0x8000_0000);
                Some((0 - (v as i64)) as i32)
            },
            None => None,
        }
    } else {
        let from = if a < b && s.get_char(a) == '+' {
            assert(s@.subrange(a + 1, b as int) =~= t.drop_first());
            a + 1
        } else {
            a
        };
        match digits_at(s, from, b, i32::MAX as u64) {
            Some(v) => Some(v as i32),
            None => None,
        }
    }
}

/// The coordinates on a line of the coordinate section.
pub fn parse_coord_line(l: &str) -> (r: Option<(i32, i32)>)
    ensures
        r == coord_of(l@),
{
    let a0 = skip_ws_at(l, 0);
    let a1 = token_end_at(l, a0);
    let b0 = skip_ws_at(l, a1);
    let b1 = token_end_at(l, b0);
    let c0 = skip_ws_at(l, b1);
    let c1 = token_end_at(l, c0);
    if a0 < a1 && b0 < b1 && c0 < c1 {
        match (i32_at(l, b0, b1), i32_at(l, c0, c1)) {
            (Some(x), Some(y)) => Some((x, y)),
            _ => None,
        }
    } else {
        None
    }
}

/// Whether the key of the header line `l` is `lit`.
fn key_is(l: &str, lit: &str) -> (r: bool)
    ensures
        r == (key_of(l@) == lit@),
{
    let sep = find_sep_at(l, 0);
    let key = l.substring_char(0, sep);
    let (a, b) = trim_bounds(key);
    range_is(key, a, b, lit)
}

/// Whether the line, trimmed, is `lit`.
fn trimmed_is(l: &str, lit: &str) -> (r: bool)
    ensures
        r == (trimmed(l@) == lit@),
{
    let (a, b) = trim_bounds(l);
    range_is(l, a, b, lit)
}

/// The bounds of the value of the header line `l`, if it has one.
fn value_bounds(l: &str) -> (r: Option<(usize, usize)>)
    ensures
        r is Some <==> has_value(l@),
        r is Some ==> r->Some_0.0 <= r->Some_0.1 <= l@.len() && value_of(l@) == l@.subrange(
            r->Some_0.0 as int,
            r->Some_0.1 as int,
        ),
{
    let sep = find_sep_at(l, 0);
    if sep < l.unicode_len() {
        proof {
            lemma_find_sep_found(l@, 0);
        }
        let v = sep + 2;
        let e = find_sep_at(l, v);
        Some((v, e))
    } else {
        None
    }
}

/// Reads an instance from the lines of its file: header lines up to
/// `NODE_COORD_SECTION`, which must give the edge weight type `EUC_2D`
/// and the dimension, then as many coordinate lines, up to `EOF` or the end.
pub fn parse_instance(lines: &Vec<String>) -> (r: Result<FileData, ReadError>)
    ensures
        r is Err <==> instance_error(lines@) is Some,
        r is Err ==> r->Err_0 == instance_error(lines@)->Some_0,
        r is Ok ==> ({
            let (h, nodes) = read_lines(lines@)->Ok_0;
            &&& r->Ok_0.metadata.name@ == h.0
            &&& r->Ok_0.metadata.edge_weight_type == Some(EdgeWeightType::EUC_2D)
            &&& r->Ok_0.data.wf()
            &&& r->Ok_0.data.is_euc_2d_of(nodes)
        }),
{
    let mut name = String::new();
    let mut dimension: usize = 0;
    let mut euc_2d = false;
    let mut k: usize = 0;
    loop
        invariant
            k <= lines.len(),
            read_lines(lines@) == read_header(lines@, k as int, (name@, dimension as int, euc_2d)),
        ensures
            k < lines.len(),
            key_of(lines@[k as int]@) == "NODE_COORD_SECTION"@,
            read_lines(lines@) == read_header(lines@, k as int, (name@, dimension as int, euc_2d)),
        decreases lines.len() - k,
    {
        if k >= lines.len() {
            return Err(ReadError::MissingCoordSection);
        }
        let l = lines[k].as_str();
        if key_is(l, "NODE_COORD_SECTION") {
            break;
        }
        if key_is(l, "NAME") {
            match value_bounds(l) {
                Some((a, b)) => {
                    name = String::from_str(l.substring_char(a, b));
                },
                None => {
                    return Err(ReadError::MalformedHeader);
                },
            }
        } else if key_is(l, "DIMENSION") {
            match value_bounds(l) {
                Some((a, b)) => match usize_at(l, a, b) {
                    Some(d) => {
                        dimension = d;
                    },
                    None => {
                        return Err(ReadError::MalformedHeader);
                    },
                },
                None => {
                    return Err(ReadError::MalformedHeader);
                },
            }
        } else if key_is(l, "EDGE_WEIGHT_TYPE") {
            match value_bounds(l) {
                Some((a, b)) => {
                    if range_is(l, a, b, "EUC_2D") {
                        euc_2d = true;
                    } else {
                        return Err(ReadError::UnknownEdgeWeightType);
                    }
                },
                None => {
                    return Err(ReadError::MalformedHeader);
                },
            }
        }
        k = k + 1;
    }
    k = k + 1;
    let mut nodes: Vec<(i32, i32)> = Vec::new();
    loop
        invariant
            k <= lines.len(),
            read_lines(lines@) == read_coords(
                lines@,
                k as int,
                (name@, dimension as int, euc_2d),
                nodes@,
            ),
        ensures
            read_lines(lines@) == Ok::<(Header, Seq<(i32, i32)>), ReadError>(
                ((name@, dimension as int, euc_2d), nodes@),
            ),
        decreases lines.len() - k,
    {
        if k >= lines.len() {
            break;
        }
        let l = lines[k].as_str();
        if trimmed_is(l, "EOF") {
            break;
        }
        match parse_coord_line(l) {
            Some(p) => {
                nodes.push(p);
            },
            None => {
                return Err(ReadError::MalformedCoordinates);
            },
        }
        k = k + 1;
    }
    if !euc_2d {
        return Err(ReadError::MissingEdgeWeightType);
    }
    if nodes.len() != dimension {
        return Err(ReadError::DimensionMismatch);
    }
    match InstanceData::from_coordinates(&nodes) {
        Ok(data) => Ok(
            FileData {
                metadata: Metadata { name, edge_weight_type: Some(EdgeWeightType::EUC_2D) },
                data,
            },
        ),
        Err(e) => Err(ReadError::Data(e)),
    }
}

} // verus!
