use vstd::prelude::*;
use crate::color::{Kumipuyo, PuyoColor};
use crate::decision::Decision;
use crate::grid::{cell_at, in_field, Grid};
use crate::text::{
    chars_of, parse_usize, parse_usize_spec, same_chars, split_chars, split_on, split_once_chars,
    split_once_spec, trim_chars, trimmed,
};

verus! {

/// Why a simple query string could not be parsed.
#[derive(Clone, Debug)]
pub enum PuyopParseError {
    /// The address has no '?'.
    InvalidUrl,
    /// The field could not be read.
    InvalidField,
    /// A piece that is not two color characters (the piece, trimmed).
    InvalidTumos(Vec<char>),
    /// A decision that is not "x-r" with x in 1..=6 and r in 0..=3 (the
    /// decision, trimmed).
    InvalidDecisions(Vec<char>),
}

/// The color a character names: R, B, Y, G, O in either case, or '.' for empty.
pub open spec fn color_of_char(c: char) -> Option<PuyoColor> {
    if c == 'R' || c == 'r' {
        Some(PuyoColor::Red)
    } else if c == 'B' || c == 'b' {
        Some(PuyoColor::Blue)
    } else if c == 'Y' || c == 'y' {
        Some(PuyoColor::Yellow)
    } else if c == 'G' || c == 'g' {
        Some(PuyoColor::Green)
    } else if c == 'O' || c == 'o' {
        Some(PuyoColor::Ojama)
    } else if c == '.' {
        Some(PuyoColor::Empty)
    } else {
        None
    }
}

/// The piece a comma-separated item names, if it is two color characters
/// once trimmed.
pub open spec fn tumo_of(t: Seq<char>) -> Option<Kumipuyo> {
    let tt = trimmed(t);
    if tt.len() == 2 && color_of_char(tt[0]) is Some && color_of_char(tt[1]) is Some {
        Some(Kumipuyo { axis: color_of_char(tt[0])->0, child: color_of_char(tt[1])->0 })
    } else {
        None
    }
}

/// The decision a comma-separated item names, if it reads "x-r" once
/// trimmed, x in 1..=6 and r in 0..=3.
pub open spec fn op_of(t: Seq<char>) -> Option<Decision> {
    match split_once_spec(trimmed(t), '-') {
        Some((xs, rs)) => match (parse_usize_spec(xs), parse_usize_spec(rs)) {
            (Some(x), Some(r)) => if 1 <= x <= 6 && r <= 3 {
                Some(Decision { x, r })
            } else {
                None
            },
            _ => None,
        },
        None => None,
    }
}

/// The value of the last parameter named `key`: parameters read "key=value".
pub open spec fn param_value(params: Seq<Seq<char>>, key: Seq<char>) -> Option<Seq<char>>
    decreases params.len(),
{
    if params.len() == 0 {
        None
    } else {
        match split_once_spec(params.last(), '=') {
            Some((k, v)) => if k == key {
                Some(v)
            } else {
                param_value(params.drop_last(), key)
            },
            None => param_value(params.drop_last(), key),
        }
    }
}

/// What follows the first '?'.
pub open spec fn query_of(s: Seq<char>) -> Option<Seq<char>> {
    match split_once_spec(s, '?') {
        Some((_, q)) => Some(q),
        None => None,
    }
}

/// `tok` is the trimmed text of a comma-separated item of `v` that does not
/// read as a piece (or, with `ops`, as a decision).
pub open spec fn bad_item(v: Seq<char>, tok: Seq<char>, ops: bool) -> bool {
    exists|i: int|
        0 <= i < split_on(v, ',').len() && (if ops {
            op_of(split_on(v, ',')[i]) is None
        } else {
            tumo_of(split_on(v, ',')[i]) is None
        }) && tok == trimmed(#[trigger] split_on(v, ',')[i])
}

pub open spec fn tumos_ok(v: Option<Seq<char>>) -> bool {
    match v {
        Some(t) => forall|i: int| 0 <= i < split_on(t, ',').len() ==> (#[trigger] tumo_of(split_on(t, ',')[i])) is Some,
        None => true,
    }
}

pub open spec fn ops_ok(v: Option<Seq<char>>) -> bool {
    match v {
        Some(t) => forall|i: int| 0 <= i < split_on(t, ',').len() ==> (#[trigger] op_of(split_on(t, ',')[i])) is Some,
        None => true,
    }
}

/// The pieces a parameter value gives (none when absent).
pub open spec fn tumos_match(v: Option<Seq<char>>, out: Seq<Kumipuyo>) -> bool {
    match v {
        Some(t) => out.len() == split_on(t, ',').len() && forall|i: int|
            0 <= i < out.len() ==> Some(#[trigger] out[i]) == tumo_of(split_on(t, ',')[i]),
        None => out.len() == 0,
    }
}

/// The decisions a parameter value gives (none when absent).
pub open spec fn ops_match(v: Option<Seq<char>>, out: Seq<Decision>) -> bool {
    match v {
        Some(t) => out.len() == split_on(t, ',').len() && forall|i: int|
            0 <= i < out.len() ==> Some(#[trigger] out[i]) == op_of(split_on(t, ',')[i]),
        None => out.len() == 0,
    }
}

pub open spec fn tumos_key() -> Seq<char> {
    seq!['t', 'u', 'm', 'o', 's']
}

pub open spec fn ops_key() -> Seq<char> {
    seq!['o', 'p', 's']
}

/// Parser of the simple "?field=...&tumos=...&ops=..." form.
pub struct PuyopParser {}

impl PuyopParser {
    pub fn parse_color(c: char) -> (r: Result<PuyoColor, PuyopParseError>)
        ensures
            r is Ok <==> color_of_char(c) is Some,
            r matches Ok(col) ==> color_of_char(c) == Some(col),
    {
        if c == 'R' || c == 'r' {
            Ok(PuyoColor::Red)
        } else if c == 'B' || c == 'b' {
            Ok(PuyoColor::Blue)
        } else if c == 'Y' || c == 'y' {
            Ok(PuyoColor::Yellow)
        } else if c == 'G' || c == 'g' {
            Ok(PuyoColor::Green)
        } else if c == 'O' || c == 'o' {
            Ok(PuyoColor::Ojama)
        } else if c == '.' {
            Ok(PuyoColor::Empty)
        } else {
            let mut v: Vec<char> = Vec::new();
            v.push(c);
            Err(PuyopParseError::InvalidTumos(v))
        }
    }

    /// The field of the query form is not read: it is always the empty grid.
    pub fn parse_field(_field_str: &str) -> (r: Result<Grid, PuyopParseError>)
        ensures
            r matches Ok(g) && g.wf() && forall|x: int, y: int| in_field(x, y) ==> #[trigger] cell_at(g@, x, y) == PuyoColor::Empty,
    {
        let g = Grid::new();
        proof {
            assert forall|x: int, y: int| in_field(x, y) implies #[trigger] cell_at(g@, x, y) == PuyoColor::Empty by {
                crate::grid::lemma_index_in_range(x, y);
            }
        }
        Ok(g)
    }

    /// Pieces "RR,BY,GG": comma-separated, each two color characters.
    pub fn parse_tumos(tumos_str: &str) -> (r: Result<Vec<Kumipuyo>, PuyopParseError>)
        ensures
            r is Ok <==> forall|i: int| 0 <= i < split_on(tumos_str@, ',').len() ==> (#[trigger] tumo_of(split_on(tumos_str@, ',')[i])) is Some,
            r matches Ok(v) ==> v@.len() == split_on(tumos_str@, ',').len() && forall|i: int|
                0 <= i < v@.len() ==> Some(#[trigger] v@[i]) == tumo_of(split_on(tumos_str@, ',')[i]),
            r matches Err(e) ==> e matches PuyopParseError::InvalidTumos(t) && exists|i: int|
                0 <= i < split_on(tumos_str@, ',').len() && tumo_of(split_on(tumos_str@, ',')[i]) is None
                    && t@ == trimmed(#[trigger] split_on(tumos_str@, ',')[i]),
    {
        let cs = chars_of(tumos_str);
        Self::tumos_from_chars(&cs)
    }

    pub fn tumos_from_chars(cs: &Vec<char>) -> (r: Result<Vec<Kumipuyo>, PuyopParseError>)
        ensures
            r is Ok <==> forall|i: int| 0 <= i < split_on(cs@, ',').len() ==> (#[trigger] tumo_of(split_on(cs@, ',')[i])) is Some,
            r matches Ok(v) ==> v@.len() == split_on(cs@, ',').len() && forall|i: int|
                0 <= i < v@.len() ==> Some(#[trigger] v@[i]) == tumo_of(split_on(cs@, ',')[i]),
            r matches Err(e) ==> e matches PuyopParseError::InvalidTumos(t) && exists|i: int|
                0 <= i < split_on(cs@, ',').len() && tumo_of(split_on(cs@, ',')[i]) is None
                    && t@ == trimmed(#[trigger] split_on(cs@, ',')[i]),
    {
        let toks = split_chars(&cs, ',');
        let ghost pieces = split_on(cs@, ',');
        let mut out: Vec<Kumipuyo> = Vec::new();
        let mut i: usize = 0;
        while i < toks.len()
            invariant
                pieces == split_on(cs@, ','),
                toks@.len() == pieces.len(),
                forall|j: int| 0 <= j < toks@.len() ==> (#[trigger] toks@[j])@ == pieces[j],
                i <= toks@.len(),
                out@.len() == i,
                forall|j: int| 0 <= j < i ==> Some(#[trigger] out@[j]) == tumo_of(pieces[j]),
            decreases toks@.len() - i,
        {
            let t = trim_chars(&toks[i]);
            assert(t@ == trimmed(pieces[i as int]));
            if t.len() != 2 {
                assert(tumo_of(pieces[i as int]) is None);
                return Err(PuyopParseError::InvalidTumos(t));
            }
            let a = Self::parse_color(t[0]);
            let b = Self::parse_color(t[1]);
            match (a, b) {
                (Ok(axis), Ok(child)) => {
                    out.push(Kumipuyo::new(axis, child));
                },
                _ => {
                    assert(tumo_of(pieces[i as int]) is None);
                    return Err(PuyopParseError::InvalidTumos(t));
                },
            }
            i = i + 1;
        }
        proof {
            assert forall|j: int| 0 <= j < pieces.len() implies (#[trigger] tumo_of(pieces[j])) is Some by {
                assert(Some(out@[j]) == tumo_of(pieces[j]));
            }
        }
        Ok(out)
    }

    /// Decisions "3-0,4-1": comma-separated, each column, '-', rotation.
    pub fn parse_decisions(ops_str: &str) -> (r: Result<Vec<Decision>, PuyopParseError>)
        ensures
            r is Ok <==> forall|i: int| 0 <= i < split_on(ops_str@, ',').len() ==> (#[trigger] op_of(split_on(ops_str@, ',')[i])) is Some,
            r matches Ok(v) ==> v@.len() == split_on(ops_str@, ',').len() && forall|i: int|
                0 <= i < v@.len() ==> Some(#[trigger] v@[i]) == op_of(split_on(ops_str@, ',')[i]),
            r matches Err(e) ==> e matches PuyopParseError::InvalidDecisions(t) && exists|i: int|
                0 <= i < split_on(ops_str@, ',').len() && op_of(split_on(ops_str@, ',')[i]) is None
                    && t@ == trimmed(#[trigger] split_on(ops_str@, ',')[i]),
    {
        let cs = chars_of(ops_str);
        Self::decisions_from_chars(&cs)
    }

    pub fn decisions_from_chars(cs: &Vec<char>) -> (r: Result<Vec<Decision>, PuyopParseError>)
        ensures
            r is Ok <==> forall|i: int| 0 <= i < split_on(cs@, ',').len() ==> (#[trigger] op_of(split_on(cs@, ',')[i])) is Some,
            r matches Ok(v) ==> v@.len() == split_on(cs@, ',').len() && forall|i: int|
                0 <= i < v@.len() ==> Some(#[trigger] v@[i]) == op_of(split_on(cs@, ',')[i]),
            r matches Err(e) ==> e matches PuyopParseError::InvalidDecisions(t) && exists|i: int|
                0 <= i < split_on(cs@, ',').len() && op_of(split_on(cs@, ',')[i]) is None
                    && t@ == trimmed(#[trigger] split_on(cs@, ',')[i]),
    {
        let toks = split_chars(&cs, ',');
        let ghost pieces = split_on(cs@, ',');
        assert(pieces == split_on(cs@, ','));
        let mut out: Vec<Decision> = Vec::new();
        let mut i: usize = 0;
        while i < toks.len()
            invariant
                pieces == split_on(cs@, ','),
                toks@.len() == pieces.len(),
                forall|j: int| 0 <= j < toks@.len() ==> (#[trigger] toks@[j])@ == pieces[j],
                i <= toks@.len(),
                out@.len() == i,
                forall|j: int| 0 <= j < i ==> Some(#[trigger] out@[j]) == op_of(pieces[j]),
            decreases toks@.len() - i,
        {
            let t = trim_chars(&toks[i]);
            assert(t@ == trimmed(pieces[i as int]));
            let ghost tok = pieces[i as int];
            match split_once_chars(&t, '-') {
                Some((xs, rs)) => {
                    match (parse_usize(&xs), parse_usize(&rs)) {
                        (Some(x), Some(r)) => {
                            if 1 <= x && x <= 6 && r <= 3 {
                                out.push(Decision::new(x, r));
                            } else {
                                assert(op_of(tok) is None);
                                return Err(PuyopParseError::InvalidDecisions(t));
                            }
                        },
                        _ => {
                            assert(op_of(tok) is None);
                            return Err(PuyopParseError::InvalidDecisions(t));
                        },
                    }
                },
                None => {
                    assert(op_of(tok) is None);
                    return Err(PuyopParseError::InvalidDecisions(t));
                },
            }
            i = i + 1;
        }
        proof {
            assert forall|j: int| 0 <= j < pieces.len() implies (#[trigger] op_of(pieces[j])) is Some by {
                assert(Some(out@[j]) == op_of(pieces[j]));
            }
        }
        Ok(out)
    }

    /// Reads "...?field=...&tumos=...&ops=...": the field (always empty),
    /// the pieces and the decisions; a missing parameter gives none, and of
    /// a repeated one the last counts.
    pub fn parse_url(url: &str) -> (r: Result<(Grid, Vec<Kumipuyo>, Vec<Decision>), PuyopParseError>)
        ensures
            query_of(url@) is None ==> r matches Err(PuyopParseError::InvalidUrl),
            query_of(url@) matches Some(q) ==> {
                let params = split_on(q, '&');
                let t = param_value(params, tumos_key());
                let o = param_value(params, ops_key());
                &&& r is Ok <==> tumos_ok(t) && ops_ok(o)
                &&& !tumos_ok(t) ==> (r matches Err(PuyopParseError::InvalidTumos(tok)) && bad_item(t->0, tok@, false))
                &&& tumos_ok(t) && !ops_ok(o) ==> (r matches Err(PuyopParseError::InvalidDecisions(tok)) && bad_item(o->0, tok@, true))
                &&& r matches Ok((g, tumos, ds)) ==> {
                    &&& g.wf()
                    &&& forall|x: int, y: int| in_field(x, y) ==> #[trigger] cell_at(g@, x, y) == PuyoColor::Empty
                    &&& tumos_match(t, tumos@)
                    &&& ops_match(o, ds@)
                }
            },
    {
        let cs = chars_of(url);
        let query = match split_once_chars(&cs, '?') {
            Some((_, q)) => q,
            None => {
                return Err(PuyopParseError::InvalidUrl);
            },
        };
        let params = split_chars(&query, '&');
        let ghost ps = split_on(query@, '&');
        let field_key = vec!['f', 'i', 'e', 'l', 'd'];
        assert(field_key@ =~= seq!['f', 'i', 'e', 'l', 'd']);
        let tk = vec!['t', 'u', 'm', 'o', 's'];
        let ok = vec!['o', 'p', 's'];
        assert(tk@ =~= tumos_key());
        assert(ok@ =~= ops_key());
        let mut field_str: Option<Vec<char>> = None;
        let mut tumos_str: Option<Vec<char>> = None;
        let mut ops_str: Option<Vec<char>> = None;
        let mut i: usize = 0;
        while i < params.len()
            invariant
                ps == split_on(query@, '&'),
                params@.len() == ps.len(),
                forall|j: int| 0 <= j < params@.len() ==> (#[trigger] params@[j])@ == ps[j],
                tk@ == tumos_key(),
                ok@ == ops_key(),
                field_key@ == seq!['f', 'i', 'e', 'l', 'd'],
                i <= params@.len(),
                match tumos_str {
                    Some(v) => param_value(ps.take(i as int), tumos_key()) == Some(v@),
                    None => param_value(ps.take(i as int), tumos_key()) is None,
                },
                match ops_str {
                    Some(v) => param_value(ps.take(i as int), ops_key()) == Some(v@),
                    None => param_value(ps.take(i as int), ops_key()) is None,
                },
            decreases params@.len() - i,
        {
            proof {
                assert(ps.take(i + 1).drop_last() =~= ps.take(i as int));
                assert(ps.take(i + 1).last() == ps[i as int]);
            }
            match split_once_chars(&params[i], '=') {
                Some((k, v)) => {
                    if same_chars(&k, &field_key) {
                        assert(k@[0] != tumos_key()[0] && k@[0] != ops_key()[0]);
                        field_str = Some(v);
                    } else if same_chars(&k, &tk) {
                        assert(k@[0] != ops_key()[0]);
                        tumos_str = Some(v);
                    } else if same_chars(&k, &ok) {
                        assert(k@[0] != tumos_key()[0]);
                        ops_str = Some(v);
                    }
                },
                None => {},
            }
            i = i + 1;
        }
        assert(ps.take(ps.len() as int) =~= ps);
        let g = match field_str {
            Some(f) => {
                let g = Grid::new();
                proof {
                    assert forall|x: int, y: int| in_field(x, y) implies #[trigger] cell_at(g@, x, y) == PuyoColor::Empty by {
                        crate::grid::lemma_index_in_range(x, y);
                    }
                }
                g
            },
            None => {
                let g = Grid::new();
                proof {
                    assert forall|x: int, y: int| in_field(x, y) implies #[trigger] cell_at(g@, x, y) == PuyoColor::Empty by {
                        crate::grid::lemma_index_in_range(x, y);
                    }
                }
                g
            },
        };
        let tumos = match tumos_str {
            Some(t) => match Self::tumos_from_chars(&t) {
                Ok(v) => v,
                Err(e) => {
                    return Err(e);
                },
            },
            None => Vec::new(),
        };
        let ds = match ops_str {
            Some(o) => match Self::decisions_from_chars(&o) {
                Ok(v) => v,
                Err(e) => {
                    return Err(e);
                },
            },
            None => Vec::new(),
        };
        Ok((g, tumos, ds))
    }
}

} // verus!
