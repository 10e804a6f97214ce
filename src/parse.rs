//! The stream state machine: header lines alternate with blocks of detail
//! lines. `Parser` steps through it one record at a time; `read` and
//! `read_filtered` collect every record.

use vstd::prelude::*;

use crate::header::header_of;
use crate::text::contains_char;
use crate::types::{Error, Fault, Mapping, MappingView, Usage, zero_usage};
use crate::usage::{LineStep, apply_line, usage_step};

verus! {

/// The lines of a listing, as characters.
pub open spec fn lines_view(v: Seq<String>) -> Seq<Seq<char>> {
    v.map_values(|l: String| l@)
}

/// Index of the first line at `p` or later that holds a `-`, the mark of a
/// header line, or the number of lines where none does.
pub open spec fn block_end(ls: Seq<Seq<char>>, p: int) -> int
    decreases ls.len() - p,
{
    if 0 <= p < ls.len() && !ls[p].contains('-') {
        block_end(ls, p + 1)
    } else {
        p
    }
}

pub proof fn lemma_block_end_bounds(ls: Seq<Seq<char>>, p: int)
    requires
        0 <= p <= ls.len(),
    ensures
        p <= block_end(ls, p) <= ls.len(),
    decreases ls.len() - p,
{
    if p < ls.len() && !ls[p].contains('-') {
        lemma_block_end_bounds(ls, p + 1);
    }
}

/// How decoding the detail block that starts at line `p` ends.
pub enum BlockOutcome {
    /// A key, unit or flag outside the known sets.
    Fatal(Fault),
    /// A line of the block does not follow the grammar.
    Invalid,
    /// Every line applied, in order, to the usage gathered before.
    Done(Usage),
}

pub open spec fn usage_block(ls: Seq<Seq<char>>, p: int, u: Usage) -> BlockOutcome
    decreases ls.len() - p,
{
    if 0 <= p < ls.len() && !ls[p].contains('-') {
        match usage_step(u, ls[p]) {
            LineStep::Fatal(f) => BlockOutcome::Fatal(f),
            LineStep::Invalid => BlockOutcome::Invalid,
            LineStep::Next(u2) => usage_block(ls, p + 1, u2),
        }
    } else {
        BlockOutcome::Done(u)
    }
}

/// Index just past the detail block that starts at line `pos`, found
/// without decoding any of its lines.
fn skip_block(lines: &Vec<String>, pos: usize) -> (r: usize)
    requires
        pos <= lines@.len(),
    ensures
        r == block_end(lines_view(lines@), pos as int),
        pos <= r <= lines@.len(),
{
    let ghost ls = lines_view(lines@);
    let mut p: usize = pos;
    while p < lines.len() && !contains_char(lines[p].as_str(), '-')
        invariant
            pos <= p <= lines@.len(),
            ls == lines_view(lines@),
            block_end(ls, pos as int) == block_end(ls, p as int),
        decreases lines@.len() - p,
    {
        p += 1;
    }
    p
}

impl Usage {
    /// Decodes the detail block that starts at line `pos`. A malformed line
    /// makes the block `None`, and the lines after it in the block are
    /// passed over; the result's index is just past the block.
    fn parse(lines: &Vec<String>, pos: usize) -> (r: Result<(usize, Option<Usage>), Error>)
        requires
            pos <= lines@.len(),
        ensures
            match usage_block(lines_view(lines@), pos as int, zero_usage()) {
                BlockOutcome::Fatal(f) => r matches Err(e) && e@ == f,
                BlockOutcome::Invalid => r matches Ok((q, None)) && q == block_end(
                    lines_view(lines@),
                    pos as int,
                ),
                BlockOutcome::Done(u) => r matches Ok((q, Some(u2))) && u2 == u && q == block_end(
                    lines_view(lines@),
                    pos as int,
                ),
            },
    {
        let ghost ls = lines_view(lines@);
        let mut u = Usage::default();
        let mut p: usize = pos;
        while p < lines.len() && !contains_char(lines[p].as_str(), '-')
            invariant
                pos <= p <= lines@.len(),
                ls == lines_view(lines@),
                usage_block(ls, pos as int, zero_usage()) == usage_block(ls, p as int, u),
                block_end(ls, pos as int) == block_end(ls, p as int),
            decreases lines@.len() - p,
        {
            assert(ls[p as int] == lines@[p as int]@);
            match apply_line(&mut u, lines[p].as_str()) {
                Err(e) => {
                    return Err(e);
                },
                Ok(true) => {
                    p += 1;
                },
                Ok(false) => {
                    let q = skip_block(lines, p + 1);
                    return Ok((q, None));
                },
            }
        }
        Ok((p, Some(u)))
    }
}

/// What the header step does at line `p`: the next position, and the
/// mapping decoded from the line there (`None` at the end of the lines or
/// where the line is no header).
pub open spec fn header_step(ls: Seq<Seq<char>>, p: int) -> (int, Option<MappingView>) {
    if 0 <= p < ls.len() {
        (p + 1, header_of(ls[p]))
    } else {
        (p, None)
    }
}

/// What the usage step does at line `p`: the position just past the block,
/// and its usage (`None` where a line of it is malformed), or a fatal fault.
pub open spec fn block_step(ls: Seq<Seq<char>>, p: int) -> Result<(int, Option<Usage>), Fault> {
    match usage_block(ls, p, zero_usage()) {
        BlockOutcome::Fatal(f) => Err(f),
        BlockOutcome::Invalid => Ok((block_end(ls, p), None)),
        BlockOutcome::Done(u) => Ok((block_end(ls, p), Some(u))),
    }
}

/// The parser expects a header line next.
pub struct ParseMapping;

/// The parser expects the detail lines of the last header next.
pub struct ParseUsage;

/// A listing being read one record at a time; `S` is the step it expects.
pub struct Parser<S> {
    lines: Vec<String>,
    pos: usize,
    state: S,
}

impl<S> View for Parser<S> {
    /// The lines, and the index of the next line to read.
    type V = (Seq<Seq<char>>, int);

    closed spec fn view(&self) -> (Seq<Seq<char>>, int) {
        (lines_view(self.lines@), self.pos as int)
    }
}

impl<S> Parser<S> {
    /// The position lies within the lines.
    pub closed spec fn wf(&self) -> bool {
        self.pos <= self.lines@.len()
    }

    fn with_state<T>(self, state: T) -> (r: Parser<T>)
        ensures
            r@ == self@,
            r.wf() == self.wf(),
    {
        Parser { lines: self.lines, pos: self.pos, state }
    }

    /// Whether every line has been read.
    pub fn is_done(&self) -> (r: bool)
        requires
            self.wf(),
        ensures
            r == (self@.1 == self@.0.len()),
    {
        self.pos == self.lines.len()
    }
}

impl Parser<ParseMapping> {
    /// A parser at the first of `lines`.
    pub fn new(lines: Vec<String>) -> (r: Parser<ParseMapping>)
        ensures
            r.wf(),
            r@ == (lines_view(lines@), 0int),
    {
        Parser { lines, pos: 0, state: ParseMapping }
    }

    /// Reads the next line as a header.
    pub fn next(self) -> (r: (Parser<ParseUsage>, Option<Mapping>))
        requires
            self.wf(),
        ensures
            r.0.wf(),
            r.0@.0 == self@.0,
            r.0@.1 == header_step(self@.0, self@.1).0,
            match r.1 {
                Some(m) => header_step(self@.0, self@.1).1 == Some(m@),
                None => header_step(self@.0, self@.1).1 is None,
            },
    {
        if self.pos < self.lines.len() {
            let mapping = Mapping::parse(self.lines[self.pos].as_str());
            let next = Parser { lines: self.lines, pos: self.pos + 1, state: ParseUsage };
            (next, mapping)
        } else {
            (self.with_state(ParseUsage), None)
        }
    }
}

impl Parser<ParseUsage> {
    /// Decodes the detail lines that follow the last header.
    pub fn next(self) -> (r: Result<(Parser<ParseMapping>, Option<Usage>), Error>)
        requires
            self.wf(),
        ensures
            match block_step(self@.0, self@.1) {
                Err(f) => r matches Err(e) && e@ == f,
                Ok((q, u)) => r matches Ok((p, u2)) && p.wf() && p@ == (self@.0, q) && u2 == u,
            },
    {
        let (q, usage) = Usage::parse(&self.lines, self.pos)?;
        proof {
            lemma_block_end_bounds(self@.0, self@.1);
        }
        let next = Parser { lines: self.lines, pos: q, state: ParseMapping };
        Ok((next, usage))
    }

    /// Passes over the detail lines that follow the last header without
    /// decoding them.
    pub fn skip(self) -> (r: Parser<ParseMapping>)
        requires
            self.wf(),
        ensures
            r.wf(),
            r@ == (self@.0, block_end(self@.0, self@.1)),
    {
        let q = skip_block(&self.lines, self.pos);
        Parser { lines: self.lines, pos: q, state: ParseMapping }
    }
}

/// The records that bulk reading collects from line `p` on, where `keep`
/// says which mappings have their detail block decoded; the others' blocks
/// are passed over undecoded.
pub open spec fn collect(
    ls: Seq<Seq<char>>,
    p: int,
    keep: spec_fn(MappingView) -> bool,
) -> Result<Seq<(MappingView, Usage)>, Fault>
    decreases ls.len() - p via collect_decreases
{
    if p < 0 || p >= ls.len() {
        Ok(seq![])
    } else {
        match header_of(ls[p]) {
            None => Err(Fault::MalformedHeader),
            Some(m) => {
                if !keep(m) {
                    collect(ls, block_end(ls, p + 1), keep)
                } else {
                    match usage_block(ls, p + 1, zero_usage()) {
                        BlockOutcome::Fatal(f) => Err(f),
                        BlockOutcome::Invalid => Err(Fault::InvalidUsage),
                        BlockOutcome::Done(u) => match collect(ls, block_end(ls, p + 1), keep) {
                            Ok(rest) => Ok(seq![(m, u)] + rest),
                            Err(f) => Err(f),
                        },
                    }
                }
            },
        }
    }
}

#[via_fn]
proof fn collect_decreases(ls: Seq<Seq<char>>, p: int, keep: spec_fn(MappingView) -> bool) {
    if 0 <= p < ls.len() {
        lemma_block_end_bounds(ls, p + 1);
    }
}

pub open spec fn records_view(v: Seq<(Mapping, Usage)>) -> Seq<(MappingView, Usage)> {
    v.map_values(|e: (Mapping, Usage)| (e.0@, e.1))
}

/// `done` followed by the records of `rest`, or the fault of `rest`.
pub open spec fn after(
    done: Seq<(MappingView, Usage)>,
    rest: Result<Seq<(MappingView, Usage)>, Fault>,
) -> Result<Seq<(MappingView, Usage)>, Fault> {
    match rest {
        Ok(v) => Ok(done + v),
        Err(f) => Err(f),
    }
}

pub open spec fn read_result(
    r: Result<Vec<(Mapping, Usage)>, Error>,
    expected: Result<Seq<(MappingView, Usage)>, Fault>,
) -> bool {
    match expected {
        Ok(v) => r matches Ok(out) && records_view(out@) == v,
        Err(f) => r matches Err(e) && e@ == f,
    }
}

/// The mappings that `keep` returns true for, as views.
pub open spec fn kept_by<F: Fn(&Mapping) -> bool>(keep: F) -> spec_fn(MappingView) -> bool {
    |v: MappingView| exists|m: Mapping| m@ == v && #[trigger] keep.ensures((&m,), true)
}

fn collect_lines<F: Fn(&Mapping) -> bool>(
    lines: &Vec<String>,
    keep: &F,
    Ghost(pred): Ghost<spec_fn(MappingView) -> bool>,
) -> (r: Result<Vec<(Mapping, Usage)>, Error>)
    requires
        forall|m: &Mapping| #[trigger] keep.requires((m,)),
        forall|m: &Mapping, b: bool| #[trigger] keep.ensures((m,), b) ==> b == pred(m@),
    ensures
        read_result(r, collect(lines_view(lines@), 0, pred)),
{
    let ghost ls = lines_view(lines@);
    let mut out: Vec<(Mapping, Usage)> = Vec::new();
    let mut p: usize = 0;
    assert(records_view(out@) =~= Seq::<(MappingView, Usage)>::empty());
    assert(after(records_view(out@), collect(ls, 0, pred)) =~= collect(ls, 0, pred));
    while p < lines.len()
        invariant
            p <= lines@.len(),
            ls == lines_view(lines@),
            forall|m: &Mapping| #[trigger] keep.requires((m,)),
            forall|m: &Mapping, b: bool| #[trigger] keep.ensures((m,), b) ==> b == pred(m@),
            collect(ls, 0, pred) == after(records_view(out@), collect(ls, p as int, pred)),
        decreases lines@.len() - p,
    {
        assert(ls[p as int] == lines@[p as int]@);
        let m = match Mapping::parse(lines[p].as_str()) {
            Some(m) => m,
            None => {
                return Err(Error::MalformedHeader);
            },
        };
        if keep(&m) {
            match Usage::parse(lines, p + 1) {
                Err(e) => {
                    return Err(e);
                },
                Ok((_, None)) => {
                    return Err(Error::InvalidUsage);
                },
                Ok((q, Some(u))) => {
                    proof {
                        lemma_block_end_bounds(ls, p + 1);
                    }
                    let ghost before = records_view(out@);
                    out.push((m, u));
                    assert(records_view(out@) =~= before + seq![(m@, u)]);
                    assert(collect(ls, 0, pred) =~= after(
                        records_view(out@),
                        collect(ls, q as int, pred),
                    )) by {
                        match collect(ls, q as int, pred) {
                            Ok(rest) => {
                                assert(before + (seq![(m@, u)] + rest) =~= records_view(out@)
                                    + rest);
                            },
                            Err(f) => {},
                        }
                    }
                    p = q;
                },
            }
        } else {
            p = skip_block(lines, p + 1);
        }
    }
    assert(records_view(out@) + seq![] =~= records_view(out@));
    Ok(out)
}

/// Reads every record of `lines`: each header with its decoded detail
/// block, in the order of the lines, or the first fault.
pub fn read(lines: &Vec<String>) -> (r: Result<Vec<(Mapping, Usage)>, Error>)
    ensures
        read_result(r, collect(lines_view(lines@), 0, |m: MappingView| true)),
{
    let keep = |m: &Mapping| -> (b: bool)
        ensures
            b,
        { true };
    collect_lines(lines, &keep, Ghost(|m: MappingView| true))
}

/// Reads the records of `lines` whose mapping `keep` accepts. The detail
/// blocks of the others are passed over without being decoded, so they
/// cannot make the read fail.
pub fn read_filtered<F: Fn(&Mapping) -> bool>(lines: &Vec<String>, keep: F) -> (r: Result<
    Vec<(Mapping, Usage)>,
    Error,
>)
    requires
        forall|m: &Mapping| #[trigger] keep.requires((m,)),
        forall|m1: Mapping, m2: Mapping, b1: bool, b2: bool|
            #![trigger keep.ensures((&m1,), b1), keep.ensures((&m2,), b2)]
            m1@ == m2@ && keep.ensures((&m1,), b1) && keep.ensures((&m2,), b2) ==> b1 == b2,
    ensures
        read_result(r, collect(lines_view(lines@), 0, kept_by(keep))),
{
    assert forall|m: &Mapping, b: bool| #[trigger] keep.ensures((m,), b) implies b == kept_by(
        keep,
    )(m@) by {
        if b {
            assert(keep.ensures((m,), true));
        } else if kept_by(keep)(m@) {
            let m2 = choose|m2: Mapping| m2@ == m@ && #[trigger] keep.ensures((&m2,), true);
            assert(keep.ensures((&m2,), true) && keep.ensures((m,), false));
        }
    }
    collect_lines(lines, &keep, Ghost(kept_by(keep)))
}

} // verus!
