//! The built-in defect patterns, and how a match is classified and reported.

use vstd::prelude::*;

verus! {

/// The six built-in byte patterns, in their fixed order: the three
/// merge-conflict markers anchored to a line start by their leading
/// newline, a trailing space, a trailing tab, and a carriage return.
pub open spec fn builtin_pats() -> Seq<Seq<u8>> {
    seq![
        seq![10u8, 60u8, 60u8, 60u8, 60u8, 60u8, 60u8, 60u8],
        seq![10u8, 61u8, 61u8, 61u8, 61u8, 61u8, 61u8, 61u8],
        seq![10u8, 62u8, 62u8, 62u8, 62u8, 62u8, 62u8, 62u8],
        seq![32u8, 10u8],
        seq![9u8, 10u8],
        seq![13u8],
    ]
}

/// How many built-in patterns there are.
pub open spec fn builtin_count() -> int {
    6int
}

/// The full pattern list of a scan: the built-ins first, then the
/// caller-supplied patterns in the order given.
pub open spec fn combined_pats(user: Seq<Seq<u8>>) -> Seq<Seq<u8>> {
    builtin_pats() + user
}

fn push_bytes2(pats: &mut Vec<Vec<u8>>, a: u8, b: u8)
    ensures
        final(pats)@.map_values(|p: Vec<u8>| p@) == old(pats)@.map_values(|p: Vec<u8>| p@).push(
            seq![a, b],
        ),
{
    let mut p: Vec<u8> = Vec::new();
    p.push(a);
    p.push(b);
    assert(p@ =~= seq![a, b]);
    pats.push(p);
    proof {
        assert(pats@.map_values(|q: Vec<u8>| q@) =~= old(pats)@.map_values(|q: Vec<u8>| q@).push(
            seq![a, b],
        ));
    }
}

fn push_marker(pats: &mut Vec<Vec<u8>>, c: u8)
    ensures
        final(pats)@.map_values(|p: Vec<u8>| p@) == old(pats)@.map_values(|p: Vec<u8>| p@).push(
            seq![10u8, c, c, c, c, c, c, c],
        ),
{
    let mut p: Vec<u8> = Vec::new();
    p.push(10);
    let mut i: usize = 0;
    while i < 7
        invariant
            i <= 7,
            p@ =~= seq![10u8] + Seq::new(i as nat, |j: int| c),
        decreases 7 - i,
    {
        p.push(c);
        proof {
            assert(p@ =~= seq![10u8] + Seq::new((i + 1) as nat, |j: int| c));
        }
        i = i + 1;
    }
    assert(p@ =~= seq![10u8, c, c, c, c, c, c, c]);
    pats.push(p);
    proof {
        assert(pats@.map_values(|q: Vec<u8>| q@) =~= old(pats)@.map_values(|q: Vec<u8>| q@).push(
            seq![10u8, c, c, c, c, c, c, c],
        ));
    }
}

/// Build the built-in pattern list as executable values.
pub fn builtin_patterns() -> (r: Vec<Vec<u8>>)
    ensures
        r@.map_values(|p: Vec<u8>| p@) == builtin_pats(),
{
    let mut pats: Vec<Vec<u8>> = Vec::new();
    assert(pats@.map_values(|q: Vec<u8>| q@) =~= Seq::<Seq<u8>>::empty());
    push_marker(&mut pats, 60);
    push_marker(&mut pats, 61);
    push_marker(&mut pats, 62);
    push_bytes2(&mut pats, 32, 10);
    push_bytes2(&mut pats, 9, 10);
    let mut p: Vec<u8> = Vec::new();
    p.push(13);
    assert(p@ =~= seq![13u8]);
    let ghost before = pats@.map_values(|q: Vec<u8>| q@);
    pats.push(p);
    proof {
        assert(pats@.map_values(|q: Vec<u8>| q@) =~= before.push(seq![13u8]));
        assert(pats@.map_values(|q: Vec<u8>| q@) =~= builtin_pats());
    }
    pats
}

/// Why a span of bytes was reported.
#[derive(Clone, Copy, PartialEq, Eq, Structural, Debug)]
pub enum Reason {
    ByteOrderMark,
    ConflictStart,
    ConflictSeparator,
    ConflictEnd,
    TrailingWhitespace,
    CarriageReturn,
    /// A caller-supplied pattern, by its index in the caller's list.
    UserPattern(usize),
}

/// The reason attached to a match of the pattern with index `idx` in the
/// combined pattern list.
pub open spec fn reason_for_index(idx: int) -> Reason {
    if idx == 0 {
        Reason::ConflictStart
    } else if idx == 1 {
        Reason::ConflictSeparator
    } else if idx == 2 {
        Reason::ConflictEnd
    } else if idx == 3 || idx == 4 {
        Reason::TrailingWhitespace
    } else if idx == 5 {
        Reason::CarriageReturn
    } else {
        Reason::UserPattern((idx - builtin_count()) as usize)
    }
}

pub(crate) fn reason_from_index(idx: usize) -> (r: Reason)
    ensures
        r == reason_for_index(idx as int),
{
    if idx == 0 {
        Reason::ConflictStart
    } else if idx == 1 {
        Reason::ConflictSeparator
    } else if idx == 2 {
        Reason::ConflictEnd
    } else if idx == 3 || idx == 4 {
        Reason::TrailingWhitespace
    } else if idx == 5 {
        Reason::CarriageReturn
    } else {
        Reason::UserPattern(idx - 6)
    }
}

/// The fixed diagnostic text of each built-in reason; a user pattern has no
/// fixed text, its own bytes are its message.
pub open spec fn builtin_text(r: Reason) -> Seq<char> {
    match r {
        Reason::ByteOrderMark => "UTF-8 byte-order mark"@,
        Reason::ConflictStart => "merge conflict start marker"@,
        Reason::ConflictSeparator => "merge conflict separator"@,
        Reason::ConflictEnd => "merge conflict end marker"@,
        Reason::TrailingWhitespace => "trailing whitespace"@,
        Reason::CarriageReturn => "carriage return"@,
        Reason::UserPattern(_) => Seq::<char>::empty(),
    }
}

impl Reason {
    /// The diagnostic text of a built-in reason.
    pub fn message(&self) -> (r: &'static str)
        requires
            !(self is UserPattern),
        ensures
            r@ == builtin_text(*self),
    {
        match self {
            Reason::ByteOrderMark => "UTF-8 byte-order mark",
            Reason::ConflictStart => "merge conflict start marker",
            Reason::ConflictSeparator => "merge conflict separator",
            Reason::ConflictEnd => "merge conflict end marker",
            Reason::TrailingWhitespace => "trailing whitespace",
            Reason::CarriageReturn => "carriage return",
            Reason::UserPattern(_) => "",
        }
    }
}

/// One reported defect: its 1-based position and its classification.
#[derive(Clone, Copy, PartialEq, Eq, Structural, Debug)]
pub struct Diagnostic {
    pub line: usize,
    pub col: usize,
    pub reason: Reason,
}

/// Why a pattern set could not be compiled.
#[derive(Clone, Copy, PartialEq, Eq, Structural, Debug)]
pub enum LintError {
    /// A caller-supplied pattern was empty; every pattern must hold at
    /// least one byte.
    EmptyPattern,
    /// The search structure could not be built from the pattern list.
    AutomatonBuild,
}

} // verus!
