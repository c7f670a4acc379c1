//! The G-code subset: instructions, the line and program parsers, and the
//! executor that turns instructions into driver steps.
//!
//! A line is split on whitespace; the first token is the opcode and the
//! others are parameters named by their first character. A parameter that
//! starts with `;` ends the line. `G0`/`G1` give a linear move (`X`, `Y`, `Z`,
//! `E`, and `F` in units per minute), `G4` a dwell (`P` milliseconds or `S`
//! seconds), `G90`/`G91` absolute/relative positioning, `M18` an axis
//! release (`X`, `Y`, `Z`; none names all three). Other opcodes are skipped.
use crate::arith::{lemma_round_div_bound, round_div, round_div_exec};
use crate::number::{decimal_result, parse_decimal};
use crate::printhead::{
    LinearMoveCommand, MoveError, MovePlan, Point, PositioningMode, PrintHead,
};
use vstd::prelude::*;

verus! {

/// One instruction of a program.
#[derive(Clone, Copy, Debug, PartialEq, Eq, Structural)]
pub enum Instruction {
    LinearMove(LinearMoveCommand),
    /// Dwell for this many microseconds.
    Pause(i64),
    SetPositioning(PositioningMode),
    /// Release the X, Y and Z axes that are set.
    Release(bool, bool, bool),
}

#[derive(Clone, Copy, Debug, PartialEq, Eq, Structural)]
pub enum ParseErrorKind {
    /// A parameter's value is not a decimal literal in range.
    InvalidNumber,
}

/// A line that could not be read; `line` counts from zero.
#[derive(Clone, Copy, Debug, PartialEq, Eq, Structural)]
pub struct ParseError {
    pub line: usize,
    pub kind: ParseErrorKind,
}

pub open spec fn is_space(c: char) -> bool {
    c == ' ' || c == '\t' || c == '\n' || c == '\r' || c == '\u{b}' || c == '\u{c}'
}

/// Whitespace splitting, character by character: the finished tokens and
/// the token being read.
pub open spec fn scan(s: Seq<char>) -> (Seq<Seq<char>>, Seq<char>)
    decreases s.len(),
{
    if s.len() == 0 {
        (Seq::empty(), Seq::empty())
    } else {
        let prev = scan(s.drop_last());
        let c = s.last();
        if is_space(c) {
            if prev.1.len() > 0 {
                (prev.0.push(prev.1), Seq::empty())
            } else {
                prev
            }
        } else {
            (prev.0, prev.1.push(c))
        }
    }
}

/// The whitespace-separated tokens of `s`, in order.
pub open spec fn tokens(s: Seq<char>) -> Seq<Seq<char>> {
    let r = scan(s);
    if r.1.len() > 0 {
        r.0.push(r.1)
    } else {
        r.0
    }
}

/// The value of a parameter token: its text after the name character.
pub open spec fn param_value(t: Seq<char>) -> Option<i64> {
    decimal_result(t.drop_first())
}

/// Fields of a linear move collected so far: point, feed rate, extrusion.
pub type MoveFields = (Point, Option<i64>, Option<i64>);

pub open spec fn set_move_field(acc: MoveFields, name: char, v: i64) -> MoveFields {
    if name == 'X' {
        (Point { x: Some(v), ..acc.0 }, acc.1, acc.2)
    } else if name == 'Y' {
        (Point { y: Some(v), ..acc.0 }, acc.1, acc.2)
    } else if name == 'Z' {
        (Point { z: Some(v), ..acc.0 }, acc.1, acc.2)
    } else if name == 'E' {
        (acc.0, acc.1, Some(v))
    } else {
        (acc.0, Some(round_div(v as int, 60) as i64), acc.2)
    }
}

pub open spec fn is_move_param(c: char) -> bool {
    c == 'X' || c == 'Y' || c == 'Z' || c == 'E' || c == 'F'
}

/// Reads the parameters of a linear move; `None` on a malformed value.
pub open spec fn gather_move(ps: Seq<Seq<char>>, acc: MoveFields) -> Option<MoveFields>
    decreases ps.len(),
{
    if ps.len() == 0 {
        Some(acc)
    } else {
        let t = ps[0];
        if t.len() == 0 {
            gather_move(ps.drop_first(), acc)
        } else if t[0] == ';' {
            Some(acc)
        } else if is_move_param(t[0]) {
            match param_value(t) {
                Some(v) => gather_move(ps.drop_first(), set_move_field(acc, t[0], v)),
                None => None,
            }
        } else {
            gather_move(ps.drop_first(), acc)
        }
    }
}

/// Reads the parameters of a dwell, in microseconds; the last of `P`
/// (milliseconds) and `S` (seconds) counts.
pub open spec fn gather_dwell(ps: Seq<Seq<char>>, acc: i64) -> Option<i64>
    decreases ps.len(),
{
    if ps.len() == 0 {
        Some(acc)
    } else {
        let t = ps[0];
        if t.len() == 0 {
            gather_dwell(ps.drop_first(), acc)
        } else if t[0] == ';' {
            Some(acc)
        } else if t[0] == 'P' || t[0] == 'S' {
            match param_value(t) {
                Some(v) => gather_dwell(
                    ps.drop_first(),
                    if t[0] == 'P' {
                        round_div(v as int, 1000) as i64
                    } else {
                        v
                    },
                ),
                None => None,
            }
        } else {
            gather_dwell(ps.drop_first(), acc)
        }
    }
}

/// The axes that the parameters of a release name.
pub open spec fn gather_release(ps: Seq<Seq<char>>, acc: (bool, bool, bool)) -> (bool, bool, bool)
    decreases ps.len(),
{
    if ps.len() == 0 {
        acc
    } else {
        let t = ps[0];
        if t.len() == 0 {
            gather_release(ps.drop_first(), acc)
        } else if t[0] == ';' {
            acc
        } else {
            gather_release(
                ps.drop_first(),
                (acc.0 || t[0] == 'X', acc.1 || t[0] == 'Y', acc.2 || t[0] == 'Z'),
            )
        }
    }
}

pub open spec fn command_of(f: MoveFields) -> LinearMoveCommand {
    LinearMoveCommand {
        point: if f.0.x is Some || f.0.y is Some || f.0.z is Some {
            Some(f.0)
        } else {
            None
        },
        feed_rate: f.1,
        extruded: f.2,
    }
}

pub open spec fn no_fields() -> MoveFields {
    (Point { x: None, y: None, z: None }, None, None)
}

/// What one line means: an instruction, nothing, or an error.
pub open spec fn line_result(s: Seq<char>) -> Result<Option<Instruction>, ParseErrorKind> {
    tokens_result(tokens(s))
}

/// What a line of tokens `t` means.
pub open spec fn tokens_result(t: Seq<Seq<char>>) -> Result<Option<Instruction>, ParseErrorKind> {
    if t.len() == 0 {
        Ok(None)
    } else {
        let op = t[0];
        let ps = t.drop_first();
        if op == seq!['G', '0'] || op == seq!['G', '1'] {
            match gather_move(ps, no_fields()) {
                Some(f) => Ok(Some(Instruction::LinearMove(command_of(f)))),
                None => Err(ParseErrorKind::InvalidNumber),
            }
        } else if op == seq!['G', '4'] {
            match gather_dwell(ps, 0) {
                Some(d) => Ok(Some(Instruction::Pause(d))),
                None => Err(ParseErrorKind::InvalidNumber),
            }
        } else if op == seq!['G', '9', '0'] {
            Ok(Some(Instruction::SetPositioning(PositioningMode::Absolute)))
        } else if op == seq!['G', '9', '1'] {
            Ok(Some(Instruction::SetPositioning(PositioningMode::Relative)))
        } else if op == seq!['M', '1', '8'] {
            let r = gather_release(ps, (false, false, false));
            if !r.0 && !r.1 && !r.2 {
                Ok(Some(Instruction::Release(true, true, true)))
            } else {
                Ok(Some(Instruction::Release(r.0, r.1, r.2)))
            }
        } else {
            Ok(None)
        }
    }
}

/// What the lines from `i` on mean: their instructions in order, or the
/// first error.
pub open spec fn program_from(ls: Seq<Seq<char>>, i: int) -> Result<Seq<Instruction>, ParseError>
    decreases ls.len() - i,
{
    if i < 0 || i >= ls.len() {
        Ok(Seq::empty())
    } else {
        match line_result(ls[i]) {
            Err(k) => Err(ParseError { line: i as usize, kind: k }),
            Ok(o) => match program_from(ls, i + 1) {
                Err(e) => Err(e),
                Ok(rest) => Ok(
                    match o {
                        Some(ins) => seq![ins] + rest,
                        None => rest,
                    },
                ),
            },
        }
    }
}

/// Parameters after a comment token do not count: a linear move reads the
/// same whatever follows the first token that starts with `;`.
pub proof fn lemma_comment_ends_parameters(
    before: Seq<Seq<char>>,
    comment: Seq<char>,
    after: Seq<Seq<char>>,
    acc: MoveFields,
)
    requires
        comment.len() > 0,
        comment[0] == ';',
    ensures
        gather_move(before + seq![comment] + after, acc) == gather_move(before + seq![comment], acc),
        (forall|i: int| 0 <= i < before.len() && before[i].len() > 0 ==> before[i][0] != ';')
            ==> gather_move(before + seq![comment], acc) == gather_move(before, acc),
    decreases before.len(),
{
    let l = before + seq![comment] + after;
    let r = before + seq![comment];
    if before.len() == 0 {
        assert(l[0] == comment);
        assert(r[0] == comment);
        assert(r.drop_first() =~= Seq::<Seq<char>>::empty());
    } else {
        if forall|i: int| 0 <= i < before.len() && before[i].len() > 0 ==> before[i][0] != ';' {
            assert(before[0].len() > 0 ==> before[0][0] != ';');
        }
        assert(l[0] == before[0]);
        assert(r[0] == before[0]);
        assert(l.drop_first() =~= before.drop_first() + seq![comment] + after);
        assert(r.drop_first() =~= before.drop_first() + seq![comment]);
        let t = before[0];
        if t.len() > 0 && is_move_param(t[0]) {
            match param_value(t) {
                Some(v) => lemma_comment_ends_parameters(
                    before.drop_first(),
                    comment,
                    after,
                    set_move_field(acc, t[0], v),
                ),
                None => {},
            }
        } else {
            lemma_comment_ends_parameters(before.drop_first(), comment, after, acc);
        }
        if forall|i: int| 0 <= i < before.len() && before[i].len() > 0 ==> before[i][0] != ';' {
            assert forall|i: int|
                0 <= i < before.drop_first().len() && before.drop_first()[i].len()
                    > 0 implies before.drop_first()[i][0] != ';' by {
                assert(before.drop_first()[i] == before[i + 1]);
            }
        }
    }
}

proof fn lemma_comment_ends_dwell(
    before: Seq<Seq<char>>,
    comment: Seq<char>,
    after: Seq<Seq<char>>,
    acc: i64,
)
    requires
        comment.len() > 0,
        comment[0] == ';',
    ensures
        gather_dwell(before + seq![comment] + after, acc) == gather_dwell(
            before + seq![comment],
            acc,
        ),
    decreases before.len(),
{
    let l = before + seq![comment] + after;
    let r = before + seq![comment];
    if before.len() == 0 {
        assert(l[0] == comment);
        assert(r[0] == comment);
    } else {
        assert(l[0] == before[0]);
        assert(r[0] == before[0]);
        assert(l.drop_first() =~= before.drop_first() + seq![comment] + after);
        assert(r.drop_first() =~= before.drop_first() + seq![comment]);
        let t = before[0];
        if t.len() > 0 && (t[0] == 'P' || t[0] == 'S') {
            match param_value(t) {
                Some(v) => lemma_comment_ends_dwell(
                    before.drop_first(),
                    comment,
                    after,
                    if t[0] == 'P' {
                        round_div(v as int, 1000) as i64
                    } else {
                        v
                    },
                ),
                None => {},
            }
        } else {
            lemma_comment_ends_dwell(before.drop_first(), comment, after, acc);
        }
    }
}

proof fn lemma_comment_ends_release(
    before: Seq<Seq<char>>,
    comment: Seq<char>,
    after: Seq<Seq<char>>,
    acc: (bool, bool, bool),
)
    requires
        comment.len() > 0,
        comment[0] == ';',
    ensures
        gather_release(before + seq![comment] + after, acc) == gather_release(
            before + seq![comment],
            acc,
        ),
    decreases before.len(),
{
    let l = before + seq![comment] + after;
    let r = before + seq![comment];
    if before.len() == 0 {
        assert(l[0] == comment);
        assert(r[0] == comment);
    } else {
        assert(l[0] == before[0]);
        assert(r[0] == before[0]);
        assert(l.drop_first() =~= before.drop_first() + seq![comment] + after);
        assert(r.drop_first() =~= before.drop_first() + seq![comment]);
        let t = before[0];
        if t.len() == 0 {
            lemma_comment_ends_release(before.drop_first(), comment, after, acc);
        } else {
            lemma_comment_ends_release(
                before.drop_first(),
                comment,
                after,
                (acc.0 || t[0] == 'X', acc.1 || t[0] == 'Y', acc.2 || t[0] == 'Z'),
            );
        }
    }
}

/// A token that starts with `;` ends its line: whatever tokens follow it,
/// the line means what it means without them, for every opcode.
pub proof fn lemma_comment_ends_line(
    op: Seq<char>,
    before: Seq<Seq<char>>,
    comment: Seq<char>,
    after: Seq<Seq<char>>,
)
    requires
        comment.len() > 0,
        comment[0] == ';',
    ensures
        tokens_result(seq![op] + before + seq![comment] + after) == tokens_result(
            seq![op] + before + seq![comment],
        ),
{
    let l = seq![op] + before + seq![comment] + after;
    let r = seq![op] + before + seq![comment];
    assert(l[0] == op);
    assert(r[0] == op);
    assert(l.drop_first() =~= before + seq![comment] + after);
    assert(r.drop_first() =~= before + seq![comment]);
    lemma_comment_ends_parameters(before, comment, after, no_fields());
    lemma_comment_ends_dwell(before, comment, after, 0);
    lemma_comment_ends_release(before, comment, after, (false, false, false));
}

/// A line whose opcode is none of `G0`, `G1`, `G4`, `G90`, `G91`, `M18`
/// gives no instruction and no error.
pub proof fn lemma_unknown_opcode_skipped(s: Seq<char>)
    requires
        tokens(s).len() > 0,
        tokens(s)[0] != seq!['G', '0'],
        tokens(s)[0] != seq!['G', '1'],
        tokens(s)[0] != seq!['G', '4'],
        tokens(s)[0] != seq!['G', '9', '0'],
        tokens(s)[0] != seq!['G', '9', '1'],
        tokens(s)[0] != seq!['M', '1', '8'],
    ensures
        line_result(s) == Ok::<Option<Instruction>, ParseErrorKind>(None),
{
}

pub open spec fn lines_view(lines: Seq<String>) -> Seq<Seq<char>> {
    lines.map_values(|l: String| l@)
}

pub open spec fn tokens_view(ts: Seq<Vec<char>>) -> Seq<Seq<char>> {
    ts.map_values(|t: Vec<char>| t@)
}

fn is_space_exec(c: char) -> (r: bool)
    ensures
        r == is_space(c),
{
    c == ' ' || c == '\t' || c == '\n' || c == '\r' || c == '\u{b}' || c == '\u{c}'
}

/// Splits a line on whitespace.
pub fn tokenize(line: &str) -> (r: Vec<Vec<char>>)
    ensures
        tokens_view(r@) == tokens(line@),
{
    let n = line.unicode_len();
    let mut done: Vec<Vec<char>> = Vec::new();
    let mut cur: Vec<char> = Vec::new();
    let mut i: usize = 0;
    assert(line@.take(0) =~= Seq::<char>::empty());
    assert(tokens_view(done@) =~= Seq::<Seq<char>>::empty());
    while i < n
        invariant
            n == line@.len(),
            i <= n,
            tokens_view(done@) == scan(line@.take(i as int)).0,
            cur@ == scan(line@.take(i as int)).1,
        decreases n - i,
    {
        let c = line.get_char(i);
        assert(line@.take(i + 1).drop_last() =~= line@.take(i as int));
        assert(line@.take(i + 1).last() == c);
        let ghost before = tokens_view(done@);
        if is_space_exec(c) {
            if cur.len() > 0 {
                let ghost cv = cur@;
                done.push(cur);
                cur = Vec::new();
                assert(tokens_view(done@) =~= before.push(cv));
            }
        } else {
            cur.push(c);
        }
        i = i + 1;
    }
    assert(line@.take(n as int) =~= line@);
    if cur.len() > 0 {
        let ghost before = tokens_view(done@);
        let ghost cv = cur@;
        done.push(cur);
        assert(tokens_view(done@) =~= before.push(cv));
    }
    done
}

fn is_word2(t: &Vec<char>, a: char, b: char) -> (r: bool)
    ensures
        r == (t@ == seq![a, b]),
{
    let r = t.len() == 2 && t[0] == a && t[1] == b;
    if r {
        assert(t@ =~= seq![a, b]);
    }
    r
}

fn is_word3(t: &Vec<char>, a: char, b: char, c: char) -> (r: bool)
    ensures
        r == (t@ == seq![a, b, c]),
{
    let r = t.len() == 3 && t[0] == a && t[1] == b && t[2] == c;
    if r {
        assert(t@ =~= seq![a, b, c]);
    }
    r
}

/// The value of parameter token `t`, in checked form.
fn param_value_exec(t: &Vec<char>) -> (r: Option<i64>)
    requires
        t.len() > 0,
    ensures
        r == param_value(t@),
{
    assert(t@.skip(1) =~= t@.drop_first());
    parse_decimal(t, 1)
}

/// `round_div(v, d)` for a parameter value.
fn scale_down(v: i64, d: i64) -> (r: i64)
    requires
        d >= 1,
    ensures
        r == round_div(v as int, d as int),
{
    proof {
        lemma_round_div_bound(v as int, d as int);
    }
    round_div_exec(v as i128, d as i128) as i64
}

fn parse_move(toks: &Vec<Vec<char>>) -> (r: Option<LinearMoveCommand>)
    requires
        toks.len() > 0,
    ensures
        r == (match gather_move(tokens_view(toks@).drop_first(), no_fields()) {
            Some(f) => Some(command_of(f)),
            None => None::<LinearMoveCommand>,
        }),
{
    let ghost tv = tokens_view(toks@);
    let ghost goal = gather_move(tv.drop_first(), no_fields());
    let mut p = Point { x: None, y: None, z: None };
    let mut feed: Option<i64> = None;
    let mut ext: Option<i64> = None;
    let mut k: usize = 1;
    let mut stop = false;
    assert(tv.skip(1) =~= tv.drop_first());
    while k < toks.len() && !stop
        invariant
            1 <= k <= toks.len(),
            tv == tokens_view(toks@),
            goal == gather_move(tv.drop_first(), no_fields()),
            stop ==> goal == Some((p, feed, ext)),
            !stop ==> goal == gather_move(tv.skip(k as int), (p, feed, ext)),
        decreases toks.len() - k,
    {
        let t = &toks[k];
        let ghost rest = tv.skip(k as int);
        assert(rest[0] == t@);
        assert(rest.drop_first() =~= tv.skip(k + 1));
        if t.len() == 0 {
        } else if t[0] == ';' {
            stop = true;
        } else {
            let c = t[0];
            if c == 'X' || c == 'Y' || c == 'Z' || c == 'E' || c == 'F' {
                match param_value_exec(t) {
                    None => {
                        return None;
                    },
                    Some(v) => {
                        if c == 'X' {
                            p.x = Some(v);
                        } else if c == 'Y' {
                            p.y = Some(v);
                        } else if c == 'Z' {
                            p.z = Some(v);
                        } else if c == 'E' {
                            ext = Some(v);
                        } else {
                            feed = Some(scale_down(v, 60));
                        }
                    },
                }
            }
        }
        k = k + 1;
    }
    if !stop {
        assert(tv.skip(k as int).len() == 0);
    }
    let point = if p.x.is_some() || p.y.is_some() || p.z.is_some() {
        Some(p)
    } else {
        None
    };
    Some(LinearMoveCommand { point, feed_rate: feed, extruded: ext })
}

fn parse_dwell(toks: &Vec<Vec<char>>) -> (r: Option<i64>)
    requires
        toks.len() > 0,
    ensures
        r == gather_dwell(tokens_view(toks@).drop_first(), 0),
{
    let ghost tv = tokens_view(toks@);
    let ghost goal = gather_dwell(tv.drop_first(), 0);
    let mut d: i64 = 0;
    let mut k: usize = 1;
    let mut stop = false;
    assert(tv.skip(1) =~= tv.drop_first());
    while k < toks.len() && !stop
        invariant
            1 <= k <= toks.len(),
            tv == tokens_view(toks@),
            goal == gather_dwell(tv.drop_first(), 0),
            stop ==> goal == Some(d),
            !stop ==> goal == gather_dwell(tv.skip(k as int), d),
        decreases toks.len() - k,
    {
        let t = &toks[k];
        let ghost rest = tv.skip(k as int);
        assert(rest[0] == t@);
        assert(rest.drop_first() =~= tv.skip(k + 1));
        if t.len() == 0 {
        } else if t[0] == ';' {
            stop = true;
        } else if t[0] == 'P' || t[0] == 'S' {
            match param_value_exec(t) {
                None => {
                    return None;
                },
                Some(v) => {
                    d = if t[0] == 'P' {
                        scale_down(v, 1000)
                    } else {
                        v
                    };
                },
            }
        }
        k = k + 1;
    }
    if !stop {
        assert(tv.skip(k as int).len() == 0);
    }
    Some(d)
}

fn parse_release(toks: &Vec<Vec<char>>) -> (r: (bool, bool, bool))
    requires
        toks.len() > 0,
    ensures
        r == gather_release(tokens_view(toks@).drop_first(), (false, false, false)),
{
    let ghost tv = tokens_view(toks@);
    let ghost goal = gather_release(tv.drop_first(), (false, false, false));
    let mut acc: (bool, bool, bool) = (false, false, false);
    let mut k: usize = 1;
    let mut stop = false;
    assert(tv.skip(1) =~= tv.drop_first());
    while k < toks.len() && !stop
        invariant
            1 <= k <= toks.len(),
            tv == tokens_view(toks@),
            goal == gather_release(tv.drop_first(), (false, false, false)),
            stop ==> goal == acc,
            !stop ==> goal == gather_release(tv.skip(k as int), acc),
        decreases toks.len() - k,
    {
        let t = &toks[k];
        let ghost rest = tv.skip(k as int);
        assert(rest[0] == t@);
        assert(rest.drop_first() =~= tv.skip(k + 1));
        if t.len() == 0 {
        } else if t[0] == ';' {
            stop = true;
        } else {
            acc = (acc.0 || t[0] == 'X', acc.1 || t[0] == 'Y', acc.2 || t[0] == 'Z');
        }
        k = k + 1;
    }
    if !stop {
        assert(tv.skip(k as int).len() == 0);
    }
    acc
}

/// Reads one line.
pub fn parse_line(line: &str) -> (r: Result<Option<Instruction>, ParseErrorKind>)
    ensures
        r == line_result(line@),
{
    let toks = tokenize(line);
    if toks.len() == 0 {
        return Ok(None);
    }
    let op = &toks[0];
    assert(tokens_view(toks@)[0] == op@);
    if is_word2(op, 'G', '0') || is_word2(op, 'G', '1') {
        match parse_move(&toks) {
            Some(c) => Ok(Some(Instruction::LinearMove(c))),
            None => Err(ParseErrorKind::InvalidNumber),
        }
    } else if is_word2(op, 'G', '4') {
        match parse_dwell(&toks) {
            Some(d) => Ok(Some(Instruction::Pause(d))),
            None => Err(ParseErrorKind::InvalidNumber),
        }
    } else if is_word3(op, 'G', '9', '0') {
        Ok(Some(Instruction::SetPositioning(PositioningMode::Absolute)))
    } else if is_word3(op, 'G', '9', '1') {
        Ok(Some(Instruction::SetPositioning(PositioningMode::Relative)))
    } else if is_word3(op, 'M', '1', '8') {
        let r = parse_release(&toks);
        if !r.0 && !r.1 && !r.2 {
            Ok(Some(Instruction::Release(true, true, true)))
        } else {
            Ok(Some(Instruction::Release(r.0, r.1, r.2)))
        }
    } else {
        Ok(None)
    }
}

/// Reads a program, line by line: all its instructions in order, or the
/// first line that cannot be read.
pub fn parse_gcode_lines(lines: &Vec<String>) -> (r: Result<Vec<Instruction>, ParseError>)
    ensures
        match program_from(lines_view(lines@), 0) {
            Ok(s) => r is Ok && r->Ok_0@ == s,
            Err(e) => r == Err::<Vec<Instruction>, ParseError>(e),
        },
{
    let ghost ls = lines_view(lines@);
    let mut out: Vec<Instruction> = Vec::new();
    let mut i: usize = 0;
    assert(out@ + Seq::<Instruction>::empty() =~= out@);
    while i < lines.len()
        invariant
            i <= lines.len(),
            ls == lines_view(lines@),
            program_from(ls, 0) == (match program_from(ls, i as int) {
                Ok(rest) => Ok(out@ + rest),
                Err(e) => Err::<Seq<Instruction>, ParseError>(e),
            }),
        decreases lines.len() - i,
    {
        assert(ls[i as int] == lines[i as int]@);
        match parse_line(lines[i].as_str()) {
            Err(k) => {
                return Err(ParseError { line: i, kind: k });
            },
            Ok(None) => {},
            Ok(Some(ins)) => {
                let ghost before = out@;
                out.push(ins);
                assert(forall|rest: Seq<Instruction>|
                    #![trigger before + (seq![ins] + rest)]
                    before + (seq![ins] + rest) =~= out@ + rest);
            },
        }
        i = i + 1;
    }
    assert(out@ + Seq::<Instruction>::empty() =~= out@);
    Ok(out)
}

/// One driver step of a program.
#[derive(Clone, Copy, Debug, PartialEq, Eq, Structural)]
pub enum Step {
    /// Run the axes as planned.
    Move(MovePlan),
    /// Wait this many microseconds.
    Wait(u64),
}

/// Why a program stopped.
#[derive(Clone, Copy, Debug, PartialEq, Eq, Structural)]
pub enum ExecError {
    /// A move was refused.
    Move(MoveError),
    /// The instruction is not supported by this head.
    NotImplemented,
}

/// What one instruction does to the head, and the step it hands the driver.
pub open spec fn step_of(h: PrintHead, ins: Instruction) -> Result<
    (PrintHead, Option<Step>),
    ExecError,
> {
    match ins {
        Instruction::LinearMove(c) => match h.after_move(c) {
            Ok((h2, p)) => Ok(
                (
                    h2,
                    match p {
                        Some(pl) => Some(Step::Move(pl)),
                        None => None,
                    },
                ),
            ),
            Err(e) => Err(ExecError::Move(e)),
        },
        Instruction::Pause(d) => Ok(
            (
                h,
                Some(
                    Step::Wait(
                        if d > 0 {
                            d as u64
                        } else {
                            0
                        },
                    ),
                ),
            ),
        ),
        Instruction::SetPositioning(m) => Ok((h.with_mode(m), None)),
        Instruction::Release(_, _, _) => Err(ExecError::NotImplemented),
    }
}

/// Running `ins` in order from head `h`, each move completed as planned:
/// the head afterwards, the steps handed to the driver, and the error that
/// stopped the program, if any.
pub open spec fn run_all(h: PrintHead, ins: Seq<Instruction>) -> (
    PrintHead,
    Seq<Step>,
    Option<ExecError>,
)
    decreases ins.len(),
{
    if ins.len() == 0 {
        (h, Seq::empty(), None)
    } else {
        match step_of(h, ins[0]) {
            Err(e) => (h, Seq::empty(), Some(e)),
            Ok((h2, s)) => {
                let h3 = match s {
                    Some(Step::Move(pl)) => h2.completed(pl),
                    _ => h2,
                };
                let r = run_all(h3, ins.drop_first());
                (
                    r.0,
                    match s {
                        Some(st) => seq![st] + r.1,
                        None => r.1,
                    },
                    r.2,
                )
            },
        }
    }
}

/// Carries out one instruction on the head's state and returns the step
/// for the driver. A move's target is recorded by `PrintHead::complete_move`
/// once the driver has run it.
pub fn run_instruction(printhead: &mut PrintHead, ins: &Instruction) -> (r: Result<
    Option<Step>,
    ExecError,
>)
    requires
        old(printhead).wf(),
    ensures
        final(printhead).wf(),
        match step_of(*old(printhead), *ins) {
            Ok((h, s)) => r == Ok::<Option<Step>, ExecError>(s) && *final(printhead) == h,
            Err(e) => r == Err::<Option<Step>, ExecError>(e) && *final(printhead) == *old(
                printhead,
            ),
        },
{
    match ins {
        Instruction::LinearMove(c) => match printhead.linear_move(*c) {
            Ok(Some(p)) => Ok(Some(Step::Move(p))),
            Ok(None) => Ok(None),
            Err(e) => Err(ExecError::Move(e)),
        },
        Instruction::Pause(d) => Ok(
            Some(
                Step::Wait(
                    if *d > 0 {
                        *d as u64
                    } else {
                        0
                    },
                ),
            ),
        ),
        Instruction::SetPositioning(m) => {
            printhead.set_position_mode(*m);
            Ok(None)
        },
        Instruction::Release(_, _, _) => Err(ExecError::NotImplemented),
    }
}

/// Runs a program strictly in order on the head's state, taking each move
/// as completed: the steps for the driver, up to the first instruction that
/// fails, and that failure.
pub fn run_gcode(printhead: &mut PrintHead, instructions: &Vec<Instruction>) -> (r: (
    Vec<Step>,
    Option<ExecError>,
))
    requires
        old(printhead).wf(),
    ensures
        final(printhead).wf(),
        run_all(*old(printhead), instructions@) == (*final(printhead), r.0@, r.1),
{
    let ghost h0 = *printhead;
    let mut steps: Vec<Step> = Vec::new();
    let mut i: usize = 0;
    assert(instructions@.skip(0) =~= instructions@);
    assert(steps@ + run_all(h0, instructions@).1 =~= run_all(h0, instructions@).1);
    while i < instructions.len()
        invariant
            i <= instructions.len(),
            printhead.wf(),
            h0 == *old(printhead),
            ({
                let tail = run_all(*printhead, instructions@.skip(i as int));
                run_all(h0, instructions@) == (tail.0, steps@ + tail.1, tail.2)
            }),
        decreases instructions.len() - i,
    {
        let ghost hb = *printhead;
        let ghost rest = instructions@.skip(i as int);
        assert(rest[0] == instructions@[i as int]);
        assert(rest.drop_first() =~= instructions@.skip(i + 1));
        match run_instruction(printhead, &instructions[i]) {
            Err(e) => {
                assert(run_all(hb, rest) == (hb, Seq::<Step>::empty(), Some(e)));
                assert(steps@ + Seq::<Step>::empty() =~= steps@);
                assert(*printhead == hb);
                assert(run_all(h0, instructions@) == (hb, steps@, Some(e)));
                return (steps, Some(e));
            },
            Ok(None) => {},
            Ok(Some(s)) => {
                match s {
                    Step::Move(pl) => printhead.complete_move(&pl),
                    Step::Wait(_) => {},
                }
                let ghost before = steps@;
                steps.push(s);
                assert(forall|t: Seq<Step>|
                    #![trigger before + (seq![s] + t)]
                    before + (seq![s] + t) =~= steps@ + t);
            },
        }
        i = i + 1;
    }
    assert(instructions@.skip(i as int).len() == 0);
    assert(steps@ + Seq::<Step>::empty() =~= steps@);
    (steps, None)
}

} // verus!
