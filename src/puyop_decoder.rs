use vstd::prelude::*;
use crate::color::{Kumipuyo, PuyoColor};
use crate::decision::Decision;
use crate::grid::{cell_at, in_field, lemma_index_in_range, lemma_index_injective, Grid};
use crate::text::{chars_of, copy_range};

verus! {

/// The 64 characters of the puyop.com encoding, in code order.
pub open spec fn encoder_seq() -> Seq<char> {
    seq![
        '0', '1', '2', '3', '4', '5', '6', '7', '8', '9',
        'a', 'b', 'c', 'd', 'e', 'f', 'g', 'h', 'i', 'j',
        'k', 'l', 'm', 'n', 'o', 'p', 'q', 'r', 's', 't',
        'u', 'v', 'w', 'x', 'y', 'z',
        'A', 'B', 'C', 'D', 'E', 'F', 'G', 'H', 'I', 'J',
        'K', 'L', 'M', 'N', 'O', 'P', 'Q', 'R', 'S', 'T',
        'U', 'V', 'W', 'X', 'Y', 'Z',
        '[', ']',
    ]
}

/// The code of a character of the encoding.
pub open spec fn char_code(c: char) -> Option<int> {
    if '0' <= c <= '9' {
        Some(c as int - '0' as int)
    } else if 'a' <= c <= 'z' {
        Some(c as int - 'a' as int + 10)
    } else if 'A' <= c <= 'Z' {
        Some(c as int - 'A' as int + 36)
    } else if c == '[' {
        Some(62)
    } else if c == ']' {
        Some(63)
    } else {
        None
    }
}

/// Color of a field code: 0 empty, 1 red, 2 green, 3 blue, 4 yellow, 6 ojama.
pub open spec fn field_color(id: int) -> PuyoColor {
    if id == 1 {
        PuyoColor::Red
    } else if id == 2 {
        PuyoColor::Green
    } else if id == 3 {
        PuyoColor::Blue
    } else if id == 4 {
        PuyoColor::Yellow
    } else if id == 6 {
        PuyoColor::Ojama
    } else {
        PuyoColor::Empty
    }
}

/// Color of a piece code: 0 red, 1 green, 2 blue, 3 yellow.
pub open spec fn tsumo_color(id: int) -> PuyoColor {
    if id == 0 {
        PuyoColor::Red
    } else if id == 1 {
        PuyoColor::Green
    } else if id == 2 {
        PuyoColor::Blue
    } else if id == 3 {
        PuyoColor::Yellow
    } else {
        PuyoColor::Empty
    }
}

/// Every character of `s` belongs to the encoding.
pub open spec fn all_encoded(s: Seq<char>) -> bool {
    forall|k: int| 0 <= k < s.len() ==> (#[trigger] char_code(s[k])) is Some
}

/// Leading empty half-rows: the field part starts at the first non-empty
/// pair of columns, so its length plus this offset is a multiple of 3.
pub open spec fn field_offset(n: int) -> int {
    (3 - n % 3) % 3
}

/// Rows that a field part of length n covers.
pub open spec fn field_rows(n: int) -> int {
    (n + field_offset(n)) / 3
}

/// The color the field part `s` gives cell (x, y): character k covers the
/// pair of columns (2p + 1, 2p + 2) of row y, where k + offset = 3 (rows - y) + p;
/// the left column takes the code's high octal digit, the right its low one.
pub open spec fn field_cell(s: Seq<char>, x: int, y: int) -> PuyoColor {
    let n = s.len() as int;
    let from_top = field_rows(n) - y;
    let k = 3 * from_top + (x - 1) / 2 - field_offset(n);
    if 0 <= from_top && 0 <= k < n {
        let d = char_code(s[k])->0;
        if (x - 1) % 2 == 0 {
            field_color(d / 8)
        } else {
            field_color(d % 8)
        }
    } else {
        PuyoColor::Empty
    }
}

/// `field_cell` restricted to the first m characters.
pub open spec fn field_cell_upto(s: Seq<char>, x: int, y: int, m: int) -> PuyoColor {
    let n = s.len() as int;
    let from_top = field_rows(n) - y;
    let k = 3 * from_top + (x - 1) / 2 - field_offset(n);
    if 0 <= from_top && 0 <= k < m {
        let d = char_code(s[k])->0;
        if (x - 1) % 2 == 0 {
            field_color(d / 8)
        } else {
            field_color(d % 8)
        }
    } else {
        PuyoColor::Empty
    }
}

/// Position of the first character outside the encoding.
pub open spec fn first_bad(s: Seq<char>, k: int) -> bool {
    0 <= k < s.len() && char_code(s[k]) is None && forall|j: int| 0 <= j < k ==> (#[trigger] char_code(s[j])) is Some
}

/// The value of the i-th two-character group of a control part.
pub open spec fn control_word(s: Seq<char>, i: int) -> int {
    char_code(s[2 * i])->0 + 64 * char_code(s[2 * i + 1])->0
}

/// The piece of the i-th group: its low 7 bits hold axis * 5 + child.
pub open spec fn control_piece(s: Seq<char>, i: int) -> Kumipuyo {
    let t = control_word(s, i) % 128;
    Kumipuyo { axis: tsumo_color(t / 5), child: tsumo_color(t % 5) }
}

/// The decision of the i-th group: above the low 7 bits, column * 4 + rotation.
pub open spec fn control_decision(s: Seq<char>, i: int) -> Decision {
    let h = control_word(s, i) / 128;
    Decision { x: (h / 4) as usize, r: (h % 4) as usize }
}

/// A field part decodes.
pub open spec fn field_ok(f: Seq<char>) -> bool {
    all_encoded(f) && field_rows(f.len() as int) <= 13
}

/// A control part decodes.
pub open spec fn control_ok(c: Seq<char>) -> bool {
    c.len() % 2 == 0 && all_encoded(c)
}

/// "/s/" starts at position i.
pub open spec fn is_marker_at(s: Seq<char>, i: int) -> bool {
    0 <= i && i + 3 <= s.len() && s[i] == '/' && s[i + 1] == 's' && s[i + 2] == '/'
}

pub open spec fn starts_with_http(s: Seq<char>) -> bool {
    s.len() >= 4 && s[0] == 'h' && s[1] == 't' && s[2] == 't' && s[3] == 'p'
}

/// The encoded part of an address: what follows the last "/s/"; the whole
/// string when it has no such path and does not start with "http"; none for
/// an http address without it.
pub open spec fn encoded_part(s: Seq<char>) -> Option<Seq<char>> {
    if exists|i: int| is_marker_at(s, i) {
        let i = choose|i: int| is_marker_at(s, i) && forall|j: int| i < j ==> !is_marker_at(s, j);
        Some(s.subrange(i + 3, s.len() as int))
    } else if starts_with_http(s) {
        None
    } else {
        Some(s)
    }
}

/// The field part and, after the first '_', the control part.
pub open spec fn split_parts(e: Seq<char>) -> (Seq<char>, Option<Seq<char>>) {
    if exists|i: int| 0 <= i < e.len() && e[i] == '_' {
        let i = choose|i: int| 0 <= i < e.len() && e[i] == '_' && forall|j: int| 0 <= j < i ==> e[j] != '_';
        (e.subrange(0, i), Some(e.subrange(i + 1, e.len() as int)))
    } else {
        (e, None)
    }
}

/// The error a field part gives: its first character outside the encoding,
/// or, when all are in it, too many rows.
pub open spec fn field_error(f: Seq<char>, e: PuyopDecodeError) -> bool {
    match e {
        PuyopDecodeError::InvalidFieldChar(c) => exists|k: int| first_bad(f, k) && f[k] == c,
        PuyopDecodeError::FieldTooTall => all_encoded(f) && field_rows(f.len() as int) > 13,
        _ => false,
    }
}

/// The error a control part gives: an odd length, or else its first
/// character outside the encoding.
pub open spec fn control_error(c: Seq<char>, e: PuyopDecodeError) -> bool {
    match e {
        PuyopDecodeError::OddControl => c.len() % 2 == 1,
        PuyopDecodeError::InvalidControlChar(ch) => c.len() % 2 == 0 && exists|k: int| first_bad(c, k) && c[k] == ch,
        _ => false,
    }
}

/// Why a puyop.com string could not be decoded.
#[derive(Clone, Copy, Debug, PartialEq, Eq, Structural)]
pub enum PuyopDecodeError {
    /// An http address without the "/s/" path.
    InvalidUrl,
    /// A character outside the encoding in the field part.
    InvalidFieldChar(char),
    /// More rows than the playfield has.
    FieldTooTall,
    /// A control part of odd length.
    OddControl,
    /// A character outside the encoding in the control part.
    InvalidControlChar(char),
}

/// Decoder of puyop.com field and control strings.
pub struct PuyopDecoder {}

impl PuyopDecoder {
    pub fn new() -> (d: PuyopDecoder) {
        PuyopDecoder {  }
    }

    /// The characters of the encoding, in code order.
    pub fn encoder() -> (v: Vec<char>)
        ensures
            v@ == encoder_seq(),
    {
        let v = vec![
            '0', '1', '2', '3', '4', '5', '6', '7', '8', '9',
            'a', 'b', 'c', 'd', 'e', 'f', 'g', 'h', 'i', 'j',
            'k', 'l', 'm', 'n', 'o', 'p', 'q', 'r', 's', 't',
            'u', 'v', 'w', 'x', 'y', 'z',
            'A', 'B', 'C', 'D', 'E', 'F', 'G', 'H', 'I', 'J',
            'K', 'L', 'M', 'N', 'O', 'P', 'Q', 'R', 'S', 'T',
            'U', 'V', 'W', 'X', 'Y', 'Z',
            '[', ']',
        ];
        assert(v@ =~= encoder_seq());
        v
    }

    /// The code of a character, if it belongs to the encoding.
    pub fn decode_char(&self, c: char) -> (r: Option<usize>)
        ensures
            r matches Some(v) ==> char_code(c) == Some(v as int) && v < 64,
            r is None ==> char_code(c) is None,
    {
        if '0' <= c && c <= '9' {
            Some(c as usize - '0' as usize)
        } else if 'a' <= c && c <= 'z' {
            Some(c as usize - 'a' as usize + 10)
        } else if 'A' <= c && c <= 'Z' {
            Some(c as usize - 'A' as usize + 36)
        } else if c == '[' {
            Some(62)
        } else if c == ']' {
            Some(63)
        } else {
            None
        }
    }

    pub fn field_id_to_color(id: usize) -> (c: PuyoColor)
        ensures
            c == field_color(id as int),
    {
        if id == 1 {
            PuyoColor::Red
        } else if id == 2 {
            PuyoColor::Green
        } else if id == 3 {
            PuyoColor::Blue
        } else if id == 4 {
            PuyoColor::Yellow
        } else if id == 6 {
            PuyoColor::Ojama
        } else {
            PuyoColor::Empty
        }
    }

    pub fn tsumo_id_to_color(id: usize) -> (c: PuyoColor)
        ensures
            c == tsumo_color(id as int),
    {
        if id == 0 {
            PuyoColor::Red
        } else if id == 1 {
            PuyoColor::Green
        } else if id == 2 {
            PuyoColor::Blue
        } else if id == 3 {
            PuyoColor::Yellow
        } else {
            PuyoColor::Empty
        }
    }

    /// Decodes a field part: three characters per row, from the top row
    /// down, each encoding a pair of columns as an octal digit pair.
    pub fn decode_field(&self, s: &Vec<char>) -> (r: Result<Grid, PuyopDecodeError>)
        ensures
            r is Ok <==> all_encoded(s@) && field_rows(s@.len() as int) <= 13,
            r matches Ok(g) ==> g.wf() && forall|x: int, y: int|
                in_field(x, y) ==> #[trigger] cell_at(g@, x, y) == field_cell(s@, x, y),
            r matches Err(e) ==> field_error(s@, e),
    {
        let n = s.len();
        let mut i: usize = 0;
        while i < n
            invariant
                n == s@.len(),
                i <= n,
                forall|j: int| 0 <= j < i ==> (#[trigger] char_code(s@[j])) is Some,
            decreases n - i,
        {
            if self.decode_char(s[i]).is_none() {
                proof {
                    assert(first_bad(s@, i as int));
                }
                return Err(PuyopDecodeError::InvalidFieldChar(s[i]));
            }
            i = i + 1;
        }
        let off: usize = (3 - n % 3) % 3;
        if n > 39 {
            return Err(PuyopDecodeError::FieldTooTall);
        }
        let rows: usize = (n + off) / 3;
        if rows > 13 {
            return Err(PuyopDecodeError::FieldTooTall);
        }
        let mut g = Grid::new();
        let mut k: usize = 0;
        while k < n
            invariant
                n == s@.len(),
                n <= 39,
                off == field_offset(n as int),
                rows == field_rows(n as int),
                rows <= 13,
                all_encoded(s@),
                k <= n,
                g.wf(),
                forall|x: int, y: int|
                    in_field(x, y) ==> #[trigger] cell_at(g@, x, y) == field_cell_upto(s@, x, y, k as int),
            decreases n - k,
        {
            let d = match self.decode_char(s[k]) {
                Some(d) => d,
                None => 0,
            };
            assert(char_code(s@[k as int]) is Some);
            let slot = k + off;
            let from_top = slot / 3;
            let p = slot % 3;
            let y = rows - from_top;
            let xl = 2 * p + 1;
            let ghost before = g@;
            g.set_color(xl, y, Self::field_id_to_color(d / 8));
            g.set_color(xl + 1, y, Self::field_id_to_color(d % 8));
            proof {
                assert forall|x: int, yy: int| in_field(x, yy) implies #[trigger] cell_at(g@, x, yy)
                    == field_cell_upto(s@, x, yy, k + 1) by {
                    lemma_index_in_range(x, yy);
                    if x == xl && yy == y {
                        lemma_index_injective(x, yy, xl + 1, y as int);
                    } else if x == xl + 1 && yy == y {
                    } else {
                        lemma_index_injective(x, yy, xl as int, y as int);
                        lemma_index_injective(x, yy, xl + 1, y as int);
                        assert(cell_at(g@, x, yy) == cell_at(before, x, yy));
                    }
                }
            }
            k = k + 1;
        }
        proof {
            assert forall|x: int, y: int| in_field(x, y) implies #[trigger] cell_at(g@, x, y) == field_cell(s@, x, y) by {
                assert(field_cell_upto(s@, x, y, n as int) == field_cell(s@, x, y));
            }
        }
        Ok(g)
    }

    /// Decodes a control part: two characters per move, giving the piece
    /// and the decision.
    pub fn decode_control(&self, s: &Vec<char>) -> (r: Result<(Vec<Kumipuyo>, Vec<Decision>), PuyopDecodeError>)
        ensures
            r is Ok <==> control_ok(s@),
            r matches Ok((seq, ds)) ==> {
                &&& seq@.len() == s@.len() / 2
                &&& ds@.len() == s@.len() / 2
                &&& forall|i: int| 0 <= i < seq@.len() ==> #[trigger] seq@[i] == control_piece(s@, i)
                &&& forall|i: int| 0 <= i < ds@.len() ==> #[trigger] ds@[i] == control_decision(s@, i)
            },
            r matches Err(e) ==> control_error(s@, e),
    {
        let n = s.len();
        if n % 2 != 0 {
            return Err(PuyopDecodeError::OddControl);
        }
        let mut i: usize = 0;
        while i < n
            invariant
                n == s@.len(),
                n % 2 == 0,
                i <= n,
                forall|j: int| 0 <= j < i ==> (#[trigger] char_code(s@[j])) is Some,
            decreases n - i,
        {
            if self.decode_char(s[i]).is_none() {
                proof {
                    assert(first_bad(s@, i as int));
                }
                return Err(PuyopDecodeError::InvalidControlChar(s[i]));
            }
            i = i + 1;
        }
        let mut seq: Vec<Kumipuyo> = Vec::new();
        let mut ds: Vec<Decision> = Vec::new();
        let mut m: usize = 0;
        while m < n / 2
            invariant
                n == s@.len(),
                n % 2 == 0,
                all_encoded(s@),
                m <= n / 2,
                seq@.len() == m,
                ds@.len() == m,
                forall|q: int| 0 <= q < m ==> #[trigger] seq@[q] == control_piece(s@, q),
                forall|q: int| 0 <= q < m ==> #[trigger] ds@[q] == control_decision(s@, q),
            decreases n / 2 - m,
        {
            assert(char_code(s@[2 * m as int]) is Some);
            assert(char_code(s@[2 * m + 1]) is Some);
            let c0 = match self.decode_char(s[2 * m]) {
                Some(c) => c,
                None => 0,
            };
            let c1 = match self.decode_char(s[2 * m + 1]) {
                Some(c) => c,
                None => 0,
            };
            let d = c0 + 64 * c1;
            let t = d % 128;
            seq.push(Kumipuyo::new(Self::tsumo_id_to_color(t / 5), Self::tsumo_id_to_color(t % 5)));
            let h = d / 128;
            ds.push(Decision::new(h / 4, h % 4));
            m = m + 1;
        }
        Ok((seq, ds))
    }

    /// Decodes a puyop.com address, or its encoded part alone: the field,
    /// and the pieces and decisions of the control part when there is one.
    pub fn decode_url(&self, url: &str) -> (r: Result<(Grid, Vec<Kumipuyo>, Vec<Decision>), PuyopDecodeError>)
        ensures
            encoded_part(url@) is None ==> r == Err::<(Grid, Vec<Kumipuyo>, Vec<Decision>), PuyopDecodeError>(PuyopDecodeError::InvalidUrl),
            encoded_part(url@) matches Some(e) ==> {
                let (f, c) = split_parts(e);
                &&& r is Ok <==> field_ok(f) && match c {
                    Some(cs) => control_ok(cs),
                    None => true,
                }
                &&& !field_ok(f) ==> (r matches Err(er) && field_error(f, er))
                &&& field_ok(f) ==> match c {
                    Some(cs) => !control_ok(cs) ==> (r matches Err(er) && control_error(cs, er)),
                    None => true,
                }
                &&& r matches Ok((g, seq, ds)) ==> {
                    &&& g.wf()
                    &&& forall|x: int, y: int| in_field(x, y) ==> #[trigger] cell_at(g@, x, y) == field_cell(f, x, y)
                    &&& match c {
                        None => seq@.len() == 0 && ds@.len() == 0,
                        Some(cs) => {
                            &&& seq@.len() == cs.len() / 2
                            &&& ds@.len() == cs.len() / 2
                            &&& forall|i: int| 0 <= i < seq@.len() ==> #[trigger] seq@[i] == control_piece(cs, i)
                            &&& forall|i: int| 0 <= i < ds@.len() ==> #[trigger] ds@[i] == control_decision(cs, i)
                        },
                    }
                }
            },
    {
        let cs = chars_of(url);
        let encoded = match encoded_of(&cs) {
            Some(e) => e,
            None => {
                return Err(PuyopDecodeError::InvalidUrl);
            },
        };
        let (field_part, control_part) = split_at_underscore(&encoded);
        let g = match self.decode_field(&field_part) {
            Ok(g) => g,
            Err(e) => {
                return Err(e);
            },
        };
        match control_part {
            Some(c) => match self.decode_control(&c) {
                Ok((seq, ds)) => Ok((g, seq, ds)),
                Err(e) => Err(e),
            },
            None => Ok((g, Vec::new(), Vec::new())),
        }
    }
}

/// Position of the last "/s/" in `cs`.
fn last_marker(cs: &Vec<char>) -> (r: Option<usize>)
    ensures
        r is None ==> forall|j: int| !is_marker_at(cs@, j),
        r matches Some(j) ==> is_marker_at(cs@, j as int) && forall|k: int| j < k ==> !is_marker_at(cs@, k),
{
    let n = cs.len();
    let mut i: usize = n;
    while i > 0
        invariant
            n == cs@.len(),
            i <= n,
            forall|j: int| i <= j ==> !is_marker_at(cs@, j),
        decreases i,
    {
        let j = i - 1;
        if n >= 3 && j <= n - 3 && cs[j] == '/' && cs[j + 1] == 's' && cs[j + 2] == '/' {
            return Some(j);
        }
        i = j;
    }
    None
}

/// The encoded part of an address, as `encoded_part` says.
fn encoded_of(cs: &Vec<char>) -> (r: Option<Vec<char>>)
    ensures
        r is None ==> encoded_part(cs@) is None,
        r matches Some(e) ==> encoded_part(cs@) == Some(e@),
{
    let n = cs.len();
    match last_marker(cs) {
        Some(j) => {
            proof {
                let c = choose|c: int| is_marker_at(cs@, c) && forall|k: int| c < k ==> !is_marker_at(cs@, k);
                if c < j {
                    assert(!is_marker_at(cs@, j as int));
                } else if c > j {
                    assert(!is_marker_at(cs@, c));
                }
            }
            Some(copy_range(cs, j + 3, n))
        },
        None => {
            if n >= 4 && cs[0] == 'h' && cs[1] == 't' && cs[2] == 't' && cs[3] == 'p' {
                return None;
            }
            assert(cs@.subrange(0, n as int) =~= cs@);
            Some(copy_range(cs, 0, n))
        },
    }
}

/// The field part and control part of an encoded string, as `split_parts` says.
fn split_at_underscore(e: &Vec<char>) -> (r: (Vec<char>, Option<Vec<char>>))
    ensures
        split_parts(e@).0 == r.0@,
        split_parts(e@).1 is None <==> r.1 is None,
        r.1 matches Some(c) ==> split_parts(e@).1 == Some(c@),
{
    let m = e.len();
    let mut u: usize = 0;
    while u < m && e[u] != '_'
        invariant
            m == e@.len(),
            u <= m,
            forall|j: int| 0 <= j < u ==> e@[j] != '_',
        decreases m - u,
    {
        u = u + 1;
    }
    if u < m {
        proof {
            let c = choose|c: int| 0 <= c < e@.len() && e@[c] == '_' && forall|k: int| 0 <= k < c ==> e@[k] != '_';
            if c > u {
                assert(e@[u as int] == '_');
            }
        }
        (copy_range(e, 0, u), Some(copy_range(e, u + 1, m)))
    } else {
        assert(e@.subrange(0, m as int) =~= e@);
        (copy_range(e, 0, m), None)
    }
}

/// Code of a normal color in a piece.
pub open spec fn tsumo_id(c: PuyoColor) -> int {
    match c {
        PuyoColor::Red => 0,
        PuyoColor::Green => 1,
        PuyoColor::Blue => 2,
        PuyoColor::Yellow => 3,
        _ => 4,
    }
}

/// The 12-bit word of one move: axis * 5 + child, then column * 4 + rotation
/// from bit 7 up.
pub open spec fn move_word(k: Kumipuyo, d: Decision) -> int {
    tsumo_id(k.axis) * 5 + tsumo_id(k.child) + 128 * (4 * d.x + d.r)
}

/// The control part that encodes a list of moves: two characters a move,
/// the low six bits of its word first.
pub open spec fn encode_moves(ks: Seq<Kumipuyo>, ds: Seq<Decision>) -> Seq<char> {
    Seq::new(
        2 * ks.len(),
        |j: int|
            if j % 2 == 0 {
                encoder_seq()[move_word(ks[j / 2], ds[j / 2]) % 64]
            } else {
                encoder_seq()[move_word(ks[j / 2], ds[j / 2]) / 64]
            },
    )
}

pub proof fn lemma_encoder_codes()
    ensures
        forall|i: int| 0 <= i < 64 ==> #[trigger] char_code(encoder_seq()[i]) == Some(i),
{
    let e = encoder_seq();
    assert(char_code(e[0]) == Some(0int));
    assert(char_code(e[1]) == Some(1int));
    assert(char_code(e[2]) == Some(2int));
    assert(char_code(e[3]) == Some(3int));
    assert(char_code(e[4]) == Some(4int));
    assert(char_code(e[5]) == Some(5int));
    assert(char_code(e[6]) == Some(6int));
    assert(char_code(e[7]) == Some(7int));
    assert(char_code(e[8]) == Some(8int));
    assert(char_code(e[9]) == Some(9int));
    assert(char_code(e[10]) == Some(10int));
    assert(char_code(e[11]) == Some(11int));
    assert(char_code(e[12]) == Some(12int));
    assert(char_code(e[13]) == Some(13int));
    assert(char_code(e[14]) == Some(14int));
    assert(char_code(e[15]) == Some(15int));
    assert(char_code(e[16]) == Some(16int));
    assert(char_code(e[17]) == Some(17int));
    assert(char_code(e[18]) == Some(18int));
    assert(char_code(e[19]) == Some(19int));
    assert(char_code(e[20]) == Some(20int));
    assert(char_code(e[21]) == Some(21int));
    assert(char_code(e[22]) == Some(22int));
    assert(char_code(e[23]) == Some(23int));
    assert(char_code(e[24]) == Some(24int));
    assert(char_code(e[25]) == Some(25int));
    assert(char_code(e[26]) == Some(26int));
    assert(char_code(e[27]) == Some(27int));
    assert(char_code(e[28]) == Some(28int));
    assert(char_code(e[29]) == Some(29int));
    assert(char_code(e[30]) == Some(30int));
    assert(char_code(e[31]) == Some(31int));
    assert(char_code(e[32]) == Some(32int));
    assert(char_code(e[33]) == Some(33int));
    assert(char_code(e[34]) == Some(34int));
    assert(char_code(e[35]) == Some(35int));
    assert(char_code(e[36]) == Some(36int));
    assert(char_code(e[37]) == Some(37int));
    assert(char_code(e[38]) == Some(38int));
    assert(char_code(e[39]) == Some(39int));
    assert(char_code(e[40]) == Some(40int));
    assert(char_code(e[41]) == Some(41int));
    assert(char_code(e[42]) == Some(42int));
    assert(char_code(e[43]) == Some(43int));
    assert(char_code(e[44]) == Some(44int));
    assert(char_code(e[45]) == Some(45int));
    assert(char_code(e[46]) == Some(46int));
    assert(char_code(e[47]) == Some(47int));
    assert(char_code(e[48]) == Some(48int));
    assert(char_code(e[49]) == Some(49int));
    assert(char_code(e[50]) == Some(50int));
    assert(char_code(e[51]) == Some(51int));
    assert(char_code(e[52]) == Some(52int));
    assert(char_code(e[53]) == Some(53int));
    assert(char_code(e[54]) == Some(54int));
    assert(char_code(e[55]) == Some(55int));
    assert(char_code(e[56]) == Some(56int));
    assert(char_code(e[57]) == Some(57int));
    assert(char_code(e[58]) == Some(58int));
    assert(char_code(e[59]) == Some(59int));
    assert(char_code(e[60]) == Some(60int));
    assert(char_code(e[61]) == Some(61int));
    assert(char_code(e[62]) == Some(62int));
    assert(char_code(e[63]) == Some(63int));
}

/// A piece of two normal colors, placed by a valid decision.
pub open spec fn encodable(k: Kumipuyo, d: Decision) -> bool {
    k.axis.is_normal() && k.child.is_normal() && d.is_valid_spec()
}

proof fn lemma_move_word(k: Kumipuyo, d: Decision)
    requires
        encodable(k, d),
    ensures
        0 <= move_word(k, d) < 4096,
        move_word(k, d) % 64 + 64 * (move_word(k, d) / 64) == move_word(k, d),
        tsumo_color((move_word(k, d) % 128) / 5) == k.axis,
        tsumo_color((move_word(k, d) % 128) % 5) == k.child,
        (move_word(k, d) / 128) / 4 == d.x,
        (move_word(k, d) / 128) % 4 == d.r,
{
    let t = tsumo_id(k.axis) * 5 + tsumo_id(k.child);
    let h = 4 * d.x + d.r;
    assert(0 <= t < 20);
    assert(0 <= h < 32);
    assert(move_word(k, d) == t + 128 * h);
    assert((t + 128 * h) % 128 == t && (t + 128 * h) / 128 == h) by (nonlinear_arith)
        requires
            0 <= t < 20,
            0 <= h,
    ;
    assert(t / 5 == tsumo_id(k.axis) && t % 5 == tsumo_id(k.child));
}

/// One move of an encoded control part decodes to that move.
proof fn lemma_move_round_trip(ks: Seq<Kumipuyo>, ds: Seq<Decision>, i: int)
    requires
        ks.len() == ds.len(),
        0 <= i < ks.len(),
        encodable(ks[i], ds[i]),
    ensures
        char_code(encode_moves(ks, ds)[2 * i]) is Some,
        char_code(encode_moves(ks, ds)[2 * i + 1]) is Some,
        control_piece(encode_moves(ks, ds), i) == ks[i],
        control_decision(encode_moves(ks, ds), i) == ds[i],
{
    lemma_encoder_codes();
    lemma_move_word(ks[i], ds[i]);
    let s = encode_moves(ks, ds);
    let w = move_word(ks[i], ds[i]);
    assert((2 * i) / 2 == i && (2 * i) % 2 == 0);
    assert((2 * i + 1) / 2 == i && (2 * i + 1) % 2 == 1);
    assert(s[2 * i] == encoder_seq()[w % 64]);
    assert(s[2 * i + 1] == encoder_seq()[w / 64]);
    assert(control_word(s, i) == w);
}

/// Decoding a control part gives back the pieces and decisions it encodes.
pub proof fn lemma_control_round_trip(ks: Seq<Kumipuyo>, ds: Seq<Decision>)
    requires
        ks.len() == ds.len(),
        forall|i: int| 0 <= i < ks.len() ==> encodable(#[trigger] ks[i], ds[i]),
    ensures
        control_ok(encode_moves(ks, ds)),
        encode_moves(ks, ds).len() / 2 == ks.len(),
        forall|i: int| 0 <= i < ks.len() ==> #[trigger] control_piece(encode_moves(ks, ds), i) == ks[i],
        forall|i: int| 0 <= i < ks.len() ==> #[trigger] control_decision(encode_moves(ks, ds), i) == ds[i],
{
    let s = encode_moves(ks, ds);
    assert forall|j: int| 0 <= j < s.len() implies (#[trigger] char_code(s[j])) is Some by {
        let i = j / 2;
        lemma_move_round_trip(ks, ds, i);
        if j % 2 == 0 {
            assert(j == 2 * i);
        } else {
            assert(j == 2 * i + 1);
        }
    }
    assert forall|i: int| 0 <= i < ks.len() implies #[trigger] control_piece(s, i) == ks[i] by {
        lemma_move_round_trip(ks, ds, i);
    }
    assert forall|i: int| 0 <= i < ks.len() implies #[trigger] control_decision(s, i) == ds[i] by {
        lemma_move_round_trip(ks, ds, i);
    }
}

/// Code of a cell color in a field part.
pub open spec fn field_id(c: PuyoColor) -> int {
    match c {
        PuyoColor::Empty => 0,
        PuyoColor::Red => 1,
        PuyoColor::Green => 2,
        PuyoColor::Blue => 3,
        PuyoColor::Yellow => 4,
        PuyoColor::Ojama => 6,
    }
}

/// The code of pair t of a grid: pairs run from the top row down, three a
/// row, each two columns wide; left cell in the high octal digit.
pub open spec fn pair_code(g: Seq<PuyoColor>, t: int) -> int {
    let y = 13 - t / 3;
    let p = t % 3;
    8 * field_id(cell_at(g, 2 * p + 1, y)) + field_id(cell_at(g, 2 * p + 2, y))
}

/// The first non-empty pair at or after t (39 when none).
pub open spec fn first_pair_from(g: Seq<PuyoColor>, t: int) -> int
    decreases 39 - t,
{
    if t >= 39 {
        39
    } else if pair_code(g, t) != 0 {
        t
    } else {
        first_pair_from(g, t + 1)
    }
}

/// The field part that encodes a grid: every pair from the first non-empty one.
pub open spec fn encode_field(g: Seq<PuyoColor>) -> Seq<char> {
    let start = first_pair_from(g, 0);
    Seq::new((39 - start) as nat, |k: int| encoder_seq()[pair_code(g, start + k)])
}

proof fn lemma_first_pair(g: Seq<PuyoColor>, t: int)
    requires
        0 <= t <= 39,
    ensures
        t <= first_pair_from(g, t) <= 39,
        forall|q: int| t <= q < first_pair_from(g, t) ==> pair_code(g, q) == 0,
    decreases 39 - t,
{
    if t < 39 && pair_code(g, t) == 0 {
        lemma_first_pair(g, t + 1);
    }
}

proof fn lemma_pair_code(g: Seq<PuyoColor>, t: int)
    requires
        0 <= t < 39,
    ensures
        0 <= pair_code(g, t) < 64,
        field_color(pair_code(g, t) / 8) == cell_at(g, 2 * (t % 3) + 1, 13 - t / 3),
        field_color(pair_code(g, t) % 8) == cell_at(g, 2 * (t % 3) + 2, 13 - t / 3),
        pair_code(g, t) == 0 ==> cell_at(g, 2 * (t % 3) + 1, 13 - t / 3) == PuyoColor::Empty && cell_at(g, 2 * (t % 3) + 2, 13 - t / 3) == PuyoColor::Empty,
{
    let a = field_id(cell_at(g, 2 * (t % 3) + 1, 13 - t / 3));
    let b = field_id(cell_at(g, 2 * (t % 3) + 2, 13 - t / 3));
    assert(0 <= a <= 6 && 0 <= b <= 6);
    assert((8 * a + b) / 8 == a && (8 * a + b) % 8 == b) by (nonlinear_arith)
        requires
            0 <= a <= 6,
            0 <= b <= 6,
    ;
}

/// Decoding the field part of a grid gives back every cell of it.
pub proof fn lemma_field_round_trip(g: Seq<PuyoColor>)
    ensures
        field_ok(encode_field(g)),
        forall|x: int, y: int| in_field(x, y) ==> #[trigger] field_cell(encode_field(g), x, y) == cell_at(g, x, y),
{
    lemma_encoder_codes();
    lemma_first_pair(g, 0);
    let start = first_pair_from(g, 0);
    let s = encode_field(g);
    let n = s.len() as int;
    assert(n == 39 - start);
    assert(field_offset(n) == start % 3);
    assert(field_rows(n) == 13 - start / 3);
    assert forall|k: int| 0 <= k < s.len() implies (#[trigger] char_code(s[k])) is Some by {
        lemma_pair_code(g, start + k);
    }
    assert forall|x: int, y: int| in_field(x, y) implies #[trigger] field_cell(s, x, y) == cell_at(g, x, y) by {
        let p = (x - 1) / 2;
        let t = 3 * (13 - y) + p;
        assert(0 <= p < 3);
        assert(0 <= t < 39);
        assert(t / 3 == 13 - y && t % 3 == p);
        lemma_pair_code(g, t);
        let from_top = field_rows(n) - y;
        let k = 3 * from_top + p - field_offset(n);
        assert(k == t - start);
        if t < start {
            assert(pair_code(g, t) == 0);
            if (x - 1) % 2 == 0 {
                assert(x == 2 * p + 1);
            } else {
                assert(x == 2 * p + 2);
            }
        } else {
            assert(s[k] == encoder_seq()[pair_code(g, t)]);
            assert(char_code(s[k]) == Some(pair_code(g, t)));
            if (x - 1) % 2 == 0 {
                assert(x == 2 * p + 1);
            } else {
                assert(x == 2 * p + 2);
            }
        }
    }
}

} // verus!
