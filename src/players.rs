use vstd::prelude::*;
use crate::ai::{ChainFocusedAI, ChainPotentialAI, HybridAI, StableAI, TakaptAI};
use crate::color::PuyoColor;
use crate::grid::{height_at, Grid};
use crate::text::chars_of;

verus! {

/// The players that can be compared.
#[derive(Clone, Copy, Debug, PartialEq, Eq, Structural)]
pub enum AIType {
    ChainFocused,
    ChainPotential,
    Stable,
    Hybrid,
    Takapt,
}

/// A player, ready to think.
pub enum Player {
    ChainFocused(ChainFocusedAI),
    ChainPotential(ChainPotentialAI),
    Stable(StableAI),
    Hybrid(HybridAI),
    Takapt(TakaptAI),
}

/// `s` spells the name whose letters are `lower`, in either case letter by
/// letter (`upper` holds the same name in upper case).
pub open spec fn spells(s: Seq<char>, lower: Seq<char>, upper: Seq<char>) -> bool {
    s.len() == lower.len() && forall|i: int| 0 <= i < s.len() ==> #[trigger] s[i] == lower[i] || s[i] == upper[i]
}

fn spells_exec(s: &Vec<char>, lower: &Vec<char>, upper: &Vec<char>) -> (b: bool)
    requires
        lower@.len() == upper@.len(),
    ensures
        b == spells(s@, lower@, upper@),
{
    if s.len() != lower.len() {
        return false;
    }
    let mut i: usize = 0;
    while i < s.len()
        invariant
            s@.len() == lower@.len(),
            lower@.len() == upper@.len(),
            i <= s@.len(),
            forall|j: int| 0 <= j < i ==> #[trigger] s@[j] == lower@[j] || s@[j] == upper@[j],
        decreases s@.len() - i,
    {
        if s[i] != lower[i] && s[i] != upper[i] {
            return false;
        }
        i = i + 1;
    }
    true
}

pub open spec fn name_table() -> Seq<(Seq<char>, AIType)> {
    seq![
        (seq!['c', 'h', 'a', 'i', 'n', 'f', 'o', 'c', 'u', 's', 'e', 'd'], AIType::ChainFocused),
        (seq!['c', 'h', 'a', 'i', 'n'], AIType::ChainFocused),
        (seq!['c', 'h', 'a', 'i', 'n', 'p', 'o', 't', 'e', 'n', 't', 'i', 'a', 'l'], AIType::ChainPotential),
        (seq!['p', 'o', 't', 'e', 'n', 't', 'i', 'a', 'l'], AIType::ChainPotential),
        (seq!['s', 't', 'a', 'b', 'l', 'e'], AIType::Stable),
        (seq!['h', 'y', 'b', 'r', 'i', 'd'], AIType::Hybrid),
        (seq!['t', 'a', 'k', 'a', 'p', 't'], AIType::Takapt),
    ]
}

/// The upper-case form of a lower-case ASCII letter; other characters unchanged.
pub open spec fn upper_of(c: char) -> char {
    if c == 'a' { 'A' } else if c == 'b' { 'B' } else if c == 'c' { 'C' } else if c == 'd' { 'D' }
    else if c == 'e' { 'E' } else if c == 'f' { 'F' } else if c == 'h' { 'H' } else if c == 'i' { 'I' }
    else if c == 'k' { 'K' } else if c == 'l' { 'L' } else if c == 'n' { 'N' } else if c == 'o' { 'O' }
    else if c == 'p' { 'P' } else if c == 'r' { 'R' } else if c == 's' { 'S' } else if c == 't' { 'T' }
    else if c == 'u' { 'U' } else if c == 'y' { 'Y' } else { c }
}

fn upper_exec(c: char) -> (u: char)
    ensures
        u == upper_of(c),
{
    if c == 'a' { 'A' } else if c == 'b' { 'B' } else if c == 'c' { 'C' } else if c == 'd' { 'D' }
    else if c == 'e' { 'E' } else if c == 'f' { 'F' } else if c == 'h' { 'H' } else if c == 'i' { 'I' }
    else if c == 'k' { 'K' } else if c == 'l' { 'L' } else if c == 'n' { 'N' } else if c == 'o' { 'O' }
    else if c == 'p' { 'P' } else if c == 'r' { 'R' } else if c == 's' { 'S' } else if c == 't' { 'T' }
    else if c == 'u' { 'U' } else if c == 'y' { 'Y' } else { c }
}

/// Each character in upper case.
pub open spec fn upper_seq(s: Seq<char>) -> Seq<char> {
    Seq::new(s.len(), |i: int| upper_of(s[i]))
}

fn upper_all(v: &Vec<char>) -> (u: Vec<char>)
    ensures
        u@ == upper_seq(v@),
{
    let mut u: Vec<char> = Vec::new();
    let mut i: usize = 0;
    while i < v.len()
        invariant
            i <= v@.len(),
            u@.len() == i,
            forall|j: int| 0 <= j < i ==> u@[j] == upper_of(v@[j]),
        decreases v@.len() - i,
    {
        u.push(upper_exec(v[i]));
        i = i + 1;
    }
    assert(u@ =~= upper_seq(v@));
    u
}

impl AIType {
    /// The player a name stands for, in either case: "chainfocused" or
    /// "chain", "chainpotential" or "potential", "stable", "hybrid", "takapt".
    pub fn from_str(s: &str) -> (r: Option<AIType>)
        ensures
            r matches Some(t) ==> exists|i: int|
                0 <= i < name_table().len() && name_table()[i].1 == t && spells(
                    s@,
                    name_table()[i].0,
                    upper_seq(name_table()[i].0),
                ),
            r is None ==> forall|i: int|
                0 <= i < name_table().len() ==> !spells(
                    s@,
                    #[trigger] name_table()[i].0,
                    upper_seq(name_table()[i].0),
                ),
    {
        let cs = chars_of(s);
        let n0 = vec!['c', 'h', 'a', 'i', 'n', 'f', 'o', 'c', 'u', 's', 'e', 'd'];
        assert(n0@ =~= name_table()[0].0);
        let u0 = upper_all(&n0);
        if spells_exec(&cs, &n0, &u0) {
            return Some(AIType::ChainFocused);
        }
        let n1 = vec!['c', 'h', 'a', 'i', 'n'];
        assert(n1@ =~= name_table()[1].0);
        let u1 = upper_all(&n1);
        if spells_exec(&cs, &n1, &u1) {
            return Some(AIType::ChainFocused);
        }
        let n2 = vec!['c', 'h', 'a', 'i', 'n', 'p', 'o', 't', 'e', 'n', 't', 'i', 'a', 'l'];
        assert(n2@ =~= name_table()[2].0);
        let u2 = upper_all(&n2);
        if spells_exec(&cs, &n2, &u2) {
            return Some(AIType::ChainPotential);
        }
        let n3 = vec!['p', 'o', 't', 'e', 'n', 't', 'i', 'a', 'l'];
        assert(n3@ =~= name_table()[3].0);
        let u3 = upper_all(&n3);
        if spells_exec(&cs, &n3, &u3) {
            return Some(AIType::ChainPotential);
        }
        let n4 = vec!['s', 't', 'a', 'b', 'l', 'e'];
        assert(n4@ =~= name_table()[4].0);
        let u4 = upper_all(&n4);
        if spells_exec(&cs, &n4, &u4) {
            return Some(AIType::Stable);
        }
        let n5 = vec!['h', 'y', 'b', 'r', 'i', 'd'];
        assert(n5@ =~= name_table()[5].0);
        let u5 = upper_all(&n5);
        if spells_exec(&cs, &n5, &u5) {
            return Some(AIType::Hybrid);
        }
        let n6 = vec!['t', 'a', 'k', 'a', 'p', 't'];
        assert(n6@ =~= name_table()[6].0);
        let u6 = upper_all(&n6);
        if spells_exec(&cs, &n6, &u6) {
            return Some(AIType::Takapt);
        }
        proof {
            assert forall|i: int| 0 <= i < name_table().len() implies !spells(
                s@,
                #[trigger] name_table()[i].0,
                upper_seq(name_table()[i].0),
            ) by {
                assert(0 <= i < 7);
            }
        }
        None
    }

    pub fn name(&self) -> (n: &'static str)
        ensures
            *self == AIType::ChainFocused ==> n@ == "ChainFocusedAI"@,
            *self == AIType::ChainPotential ==> n@ == "ChainPotentialAI"@,
            *self == AIType::Stable ==> n@ == "StableAI"@,
            *self == AIType::Hybrid ==> n@ == "HybridAI"@,
            *self == AIType::Takapt ==> n@ == "TakaptAI"@,
    {
        match self {
            AIType::ChainFocused => "ChainFocusedAI",
            AIType::ChainPotential => "ChainPotentialAI",
            AIType::Stable => "StableAI",
            AIType::Hybrid => "HybridAI",
            AIType::Takapt => "TakaptAI",
        }
    }

    /// A player of this type, with its own weights.
    pub fn create_ai(&self) -> (p: Player)
        ensures
            *self == AIType::ChainFocused ==> p is ChainFocused,
            *self == AIType::ChainPotential ==> p is ChainPotential,
            *self == AIType::Stable ==> p is Stable,
            *self == AIType::Hybrid ==> p is Hybrid,
            *self == AIType::Takapt ==> p is Takapt,
    {
        match self {
            AIType::ChainFocused => Player::ChainFocused(ChainFocusedAI::new()),
            AIType::ChainPotential => Player::ChainPotential(ChainPotentialAI::new()),
            AIType::Stable => Player::Stable(StableAI::new()),
            AIType::Hybrid => Player::Hybrid(HybridAI::new()),
            AIType::Takapt => Player::Takapt(TakaptAI::new()),
        }
    }
}

impl Player {
    pub fn name(&self) -> (n: &'static str)
        ensures
            self is ChainFocused ==> n@ == "ChainFocusedAI"@,
            self is ChainPotential ==> n@ == "ChainPotentialAI"@,
            self is Stable ==> n@ == "StableAI"@,
            self is Hybrid ==> n@ == "HybridAI"@,
            self is Takapt ==> n@ == "TakaptAI"@,
    {
        match self {
            Player::ChainFocused(_) => "ChainFocusedAI",
            Player::ChainPotential(_) => "ChainPotentialAI",
            Player::Stable(_) => "StableAI",
            Player::Hybrid(_) => "HybridAI",
            Player::Takapt(_) => "TakaptAI",
        }
    }
}

/// A label for a rotation, for display.
pub fn format_rotation(rot: usize) -> (s: &'static str)
    ensures
        rot == 0 ==> s@ == "↑(上)"@,
        rot == 1 ==> s@ == "→(右)"@,
        rot == 2 ==> s@ == "↓(下)"@,
        rot == 3 ==> s@ == "←(左)"@,
        rot > 3 ==> s@ == "?"@,
{
    if rot == 0 {
        "↑(上)"
    } else if rot == 1 {
        "→(右)"
    } else if rot == 2 {
        "↓(下)"
    } else if rot == 3 {
        "←(左)"
    } else {
        "?"
    }
}

/// A longer label for a rotation, for display.
pub fn rotation_description(rot: usize) -> (s: &'static str)
    ensures
        rot == 0 ==> s@ == "vertical ↑"@,
        rot == 1 ==> s@ == "horizontal →"@,
        rot == 2 ==> s@ == "vertical ↓"@,
        rot == 3 ==> s@ == "horizontal ←"@,
        rot > 3 ==> s@ == "unknown"@,
{
    if rot == 0 {
        "vertical ↑"
    } else if rot == 1 {
        "horizontal →"
    } else if rot == 2 {
        "vertical ↓"
    } else if rot == 3 {
        "horizontal ←"
    } else {
        "unknown"
    }
}

/// The row at which the triggering block of a completed chain lands: the
/// highest stack among the columns that received blocks (`added[x - 1]`
/// blocks went to column x); 0 when none did.
pub open spec fn ignition_spec(g: Seq<PuyoColor>, added: Seq<usize>, n: int) -> int
    decreases n,
{
    if n <= 0 {
        0
    } else {
        let prev = ignition_spec(g, added, n - 1);
        if added[n - 1] > 0 && height_at(g, n) > prev {
            height_at(g, n)
        } else {
            prev
        }
    }
}

pub fn ignition_row(completed: &Grid, added: &Vec<usize>) -> (r: u32)
    requires
        completed.wf(),
        added@.len() == 6,
    ensures
        r == ignition_spec(completed@, added@, 6),
{
    let mut best: usize = 0;
    let mut x: usize = 1;
    while x <= 6
        invariant
            completed.wf(),
            added@.len() == 6,
            1 <= x <= 7,
            best == ignition_spec(completed@, added@, x - 1),
            best <= 13,
        decreases 7 - x,
    {
        let h = completed.height(x);
        if added[x - 1] > 0 && h > best {
            best = h;
        }
        x = x + 1;
    }
    best as u32
}

} // verus!
