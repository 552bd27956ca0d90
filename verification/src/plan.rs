//! Ordered, composable command sequences.
//!
//! A plan is built from the raw lines of one named source: empty lines
//! are skipped, lines that parse contribute their command in order, and
//! lines that fail to parse are dropped (or collected as diagnostics by
//! [`DrawPlan::from_lines`]). Plans concatenate associatively, with the
//! empty plan as identity; combining the plans of several sources in a
//! deterministic order is the caller's choice.

use vstd::prelude::*;

use crate::command::parse_line_spec;
use crate::command::parse_tokens;
use crate::command::tokenize;
use crate::command::DrawCall;
use crate::command::ParseError;
use crate::command::ParseErrorModel;
use crate::engine::run;
use crate::engine::run_lines;
use crate::engine::Draw;
use crate::engine::Line;
use crate::engine::PenState;

verus! {

/// An ordered sequence of parsed commands, executed as one unit.
pub struct DrawPlan(pub Vec<DrawCall>);

impl View for DrawPlan {
    type V = Seq<DrawCall>;

    open spec fn view(&self) -> Seq<DrawCall> {
        self.0@
    }
}

/// The commands that survive parsing a source's raw lines: empty lines
/// and lines that fail to parse contribute nothing, the rest keep their
/// order.
pub open spec fn plan_of_lines(lines: Seq<Seq<char>>) -> Seq<DrawCall>
    decreases lines.len(),
{
    if lines.len() == 0 {
        Seq::empty()
    } else {
        let rest = plan_of_lines(lines.drop_first());
        if lines[0].len() == 0 {
            rest
        } else {
            match parse_line_spec(lines[0]) {
                Ok(c) => seq![c] + rest,
                Err(_) => rest,
            }
        }
    }
}

/// The parse failures of a source's raw lines, in line order; empty
/// lines are skipped, not reported.
pub open spec fn errors_of_lines(lines: Seq<Seq<char>>) -> Seq<ParseErrorModel>
    decreases lines.len(),
{
    if lines.len() == 0 {
        Seq::empty()
    } else {
        let rest = errors_of_lines(lines.drop_first());
        if lines[0].len() == 0 {
            rest
        } else {
            match parse_line_spec(lines[0]) {
                Ok(_) => rest,
                Err(e) => seq![e] + rest,
            }
        }
    }
}

impl DrawPlan {
    /// Parse a source's raw lines into a plan, collecting the failures
    /// as diagnostics instead of silently discarding the lines.
    pub fn from_lines(lines: &Vec<String>) -> (r: (DrawPlan, Vec<ParseError>))
        ensures
            r.0@ == plan_of_lines(lines.deep_view()),
            r.1@.map_values(|e: ParseError| e@) == errors_of_lines(lines.deep_view()),
    {
        let ghost all = lines.deep_view();
        let n: usize = lines.len();
        let mut cmds: Vec<DrawCall> = Vec::new();
        let mut errs: Vec<ParseError> = Vec::new();
        let mut i: usize = 0;
        proof {
            assert(forall|k: int| 0 <= k < all.len() ==> all[k] == #[trigger] lines@[k]@);
            assert(all.skip(0) =~= all);
            assert(Seq::<DrawCall>::empty() + plan_of_lines(all) =~= plan_of_lines(all));
            assert(errs@.map_values(|e: ParseError| e@) =~= Seq::<ParseErrorModel>::empty());
            assert(Seq::<ParseErrorModel>::empty() + errors_of_lines(all) =~= errors_of_lines(all));
        }
        while i < n
            invariant
                n == lines@.len(),
                i <= n,
                all == lines.deep_view(),
                forall|k: int| 0 <= k < all.len() ==> all[k] == #[trigger] lines@[k]@,
                plan_of_lines(all) == cmds@ + plan_of_lines(all.skip(i as int)),
                errors_of_lines(all) == errs@.map_values(|e: ParseError| e@) + errors_of_lines(
                    all.skip(i as int),
                ),
            decreases n - i,
        {
            let ghost tail = all.skip(i as int);
            proof {
                assert(tail[0] == all[i as int]);
                assert(tail.drop_first() =~= all.skip(i as int + 1));
            }
            let line: &String = &lines[i];
            if line.as_str().unicode_len() != 0 {
                let toks = tokenize(line.as_str());
                match parse_tokens(&toks) {
                    Ok(c) => {
                        cmds.push(c);
                        proof {
                            assert(cmds@ =~= cmds@.drop_last().push(c));
                            assert(cmds@.drop_last() + (seq![c] + plan_of_lines(
                                all.skip(i as int + 1),
                            )) =~= cmds@ + plan_of_lines(all.skip(i as int + 1)));
                        }
                    },
                    Err(e) => {
                        errs.push(e);
                        proof {
                            assert(errs@.map_values(|x: ParseError| x@) =~= errs@.drop_last()
                                .map_values(|x: ParseError| x@).push(e@));
                            assert(errs@.drop_last().map_values(|x: ParseError| x@) + (seq![e@]
                                + errors_of_lines(all.skip(i as int + 1))) =~= errs@.map_values(
                                |x: ParseError| x@,
                            ) + errors_of_lines(all.skip(i as int + 1)));
                        }
                    },
                }
            }
            i = i + 1;
        }
        proof {
            assert(all.skip(n as int) =~= Seq::<Seq<char>>::empty());
            assert(cmds@ + Seq::<DrawCall>::empty() =~= cmds@);
            assert(errs@.map_values(|e: ParseError| e@) + Seq::<ParseErrorModel>::empty()
                =~= errs@.map_values(|e: ParseError| e@));
        }
        (DrawPlan(cmds), errs)
    }

    /// Parse a source's raw lines into a plan, dropping the lines that
    /// fail to parse.
    pub fn from(lines: Vec<String>) -> (p: DrawPlan)
        ensures
            p@ == plan_of_lines(lines.deep_view()),
    {
        let r = DrawPlan::from_lines(&lines);
        r.0
    }

    /// Concatenate two plans, keeping both orders.
    pub fn add(self, other: DrawPlan) -> (r: DrawPlan)
        ensures
            r@ == self@ + other@,
    {
        let mut v = self.0;
        let mut o = other.0;
        v.append(&mut o);
        DrawPlan(v)
    }

    /// Append one command to a plan.
    pub fn add_call(self, c: DrawCall) -> (r: DrawPlan)
        ensures
            r@ == self@.push(c),
    {
        let mut v = self.0;
        v.push(c);
        DrawPlan(v)
    }
}

impl DrawCall {
    /// The two-command plan `[self, other]`.
    pub fn add(self, other: DrawCall) -> (r: DrawPlan)
        ensures
            r@ == seq![self, other],
    {
        let mut v: Vec<DrawCall> = Vec::new();
        v.push(self);
        v.push(other);
        proof {
            assert(v@ =~= seq![self, other]);
        }
        DrawPlan(v)
    }
}

/// The command sequences of a list of plans, in order.
pub open spec fn plans_view(ps: Seq<DrawPlan>) -> Seq<Seq<DrawCall>> {
    ps.map_values(|p: DrawPlan| p@)
}

/// The one flattened command sequence of a list of plans.
pub open spec fn flatten_plans(ps: Seq<Seq<DrawCall>>) -> Seq<DrawCall>
    decreases ps.len(),
{
    if ps.len() == 0 {
        Seq::empty()
    } else {
        ps[0] + flatten_plans(ps.drop_first())
    }
}

impl DrawPlan {
    /// Concatenate the plans of several sources into one frame plan,
    /// keeping the given order. Handing the sources over in a fixed
    /// order (say, sorted by source name) makes the frame plan
    /// deterministic.
    pub fn concat_all(plans: Vec<DrawPlan>) -> (r: DrawPlan)
        ensures
            r@ == flatten_plans(plans_view(plans@)),
    {
        let ghost orig = plans@;
        let mut rest = plans;
        let mut acc = DrawPlan(Vec::new());
        proof {
            assert(Seq::<DrawCall>::empty() + flatten_plans(plans_view(rest@)) =~= flatten_plans(
                plans_view(rest@),
            ));
        }
        while rest.len() > 0
            invariant
                flatten_plans(plans_view(orig)) == acc@ + flatten_plans(plans_view(rest@)),
            decreases rest.len(),
        {
            let ghost before = rest@;
            let head = rest.remove(0);
            proof {
                assert(plans_view(before)[0] == head@);
                assert(plans_view(before).drop_first() =~= plans_view(rest@));
                assert((acc@ + head@) + flatten_plans(plans_view(rest@)) =~= acc@ + (head@
                    + flatten_plans(plans_view(rest@))));
            }
            acc = acc.add(head);
        }
        proof {
            assert(plans_view(rest@).len() == 0);
            assert(acc@ + flatten_plans(plans_view(rest@)) =~= acc@);
        }
        acc
    }
}

impl Draw for DrawPlan {
    open spec fn next_state(&self, st: PenState) -> PenState {
        run(st, self@)
    }

    open spec fn lines_of(&self, st: PenState) -> Seq<Line> {
        run_lines(st, self@)
    }

    fn draw(&self, st: &mut PenState, out: &mut Vec<Line>) {
        let n: usize = self.0.len();
        let mut i: usize = 0;
        proof {
            assert(self@.take(0) =~= Seq::<DrawCall>::empty());
            assert(out@ =~= out@ + Seq::<Line>::empty());
        }
        while i < n
            invariant
                n == self.0.len(),
                i <= n,
                *st == run(*old(st), self@.take(i as int)),
                out@ == old(out)@ + run_lines(*old(st), self@.take(i as int)),
            decreases n - i,
        {
            let c: DrawCall = self.0[i];
            proof {
                crate::engine::lemma_run_snoc(*old(st), self@, i as int);
                assert(old(out)@ + run_lines(*old(st), self@.take(i as int)) + c.lines_of(*st)
                    =~= old(out)@ + (run_lines(*old(st), self@.take(i as int)) + c.lines_of(*st)));
            }
            c.draw(st, out);
            i = i + 1;
        }
        proof {
            assert(self@.take(n as int) =~= self@);
        }
    }
}

/// Plan concatenation is associative: however three plans are grouped,
/// the result is the one flattened command sequence.
pub proof fn lemma_add_assoc(a: Seq<DrawCall>, b: Seq<DrawCall>, c: Seq<DrawCall>)
    ensures
        (a + b) + c == a + (b + c),
{
    assert((a + b) + c =~= a + (b + c));
}

/// The empty plan is the identity of concatenation.
pub proof fn lemma_add_empty(a: Seq<DrawCall>)
    ensures
        a + Seq::<DrawCall>::empty() == a,
        Seq::<DrawCall>::empty() + a == a,
{
    assert(a + Seq::<DrawCall>::empty() =~= a);
    assert(Seq::<DrawCall>::empty() + a =~= a);
}

} // verus!
