//! Precedence climbing: from a flat run of operands and operators to the
//! tree that their precedence and associativity give.

use crate::syntax::{Pair, Rule};
use vstd::prelude::*;

verus! {

/// How operators of one precedence level group.
#[derive(Clone, Copy, Debug, PartialEq, Eq, Structural)]
pub enum Assoc {
    Left,
    Right,
}

/// The precedence level of an operator and how its level groups.
#[derive(Clone, Copy, Debug, PartialEq, Eq, Structural)]
pub struct Binding {
    pub level: u8,
    pub assoc: Assoc,
}

/// The operator table: comparisons bind loosest, then `+` and `-`, then `*`
/// and `/`, then `^`, which alone groups to the right. A rule that is no
/// operator has no entry.
pub open spec fn spec_binding(rule: Rule) -> Option<Binding> {
    match rule {
        Rule::comparison => Some(Binding { level: 1, assoc: Assoc::Left }),
        Rule::add | Rule::subtract => Some(Binding { level: 2, assoc: Assoc::Left }),
        Rule::multiply | Rule::divide => Some(Binding { level: 3, assoc: Assoc::Left }),
        Rule::power => Some(Binding { level: 4, assoc: Assoc::Right }),
        _ => None,
    }
}

/// The entry of the operator table for `rule`.
#[verifier::when_used_as_spec(spec_binding)]
pub fn binding(rule: Rule) -> (r: Option<Binding>)
    ensures
        r == spec_binding(rule),
{
    match rule {
        Rule::comparison => Some(Binding { level: 1, assoc: Assoc::Left }),
        Rule::add | Rule::subtract => Some(Binding { level: 2, assoc: Assoc::Left }),
        Rule::multiply | Rule::divide => Some(Binding { level: 3, assoc: Assoc::Left }),
        Rule::power => Some(Binding { level: 4, assoc: Assoc::Right }),
        _ => None,
    }
}

/// An expression tree over the positions of a flat run: a leaf is the
/// position of an operand, an inner node the position of an operator with
/// the trees of its two sides.
#[derive(Debug, PartialEq, Eq)]
pub enum Term {
    Leaf(usize),
    Binary(usize, Box<Term>, Box<Term>),
}

impl Term {
    /// The number of nodes of the tree.
    pub open spec fn size(self) -> nat
        decreases self,
    {
        match self {
            Term::Leaf(_) => 1,
            Term::Binary(_, left, right) => 1 + left.size() + right.size(),
        }
    }
}

/// The least level that an operator to the right of one with `binding` must
/// have to group with the right operand first.
pub open spec fn right_floor(binding: Binding) -> nat {
    match binding.assoc {
        Assoc::Left => (binding.level + 1) as nat,
        Assoc::Right => binding.level as nat,
    }
}

/// The tree that starts with the operand at `pos` and takes in every
/// following operator of level `floor` or above, with the position after
/// it. `Err` holds the position at which an operand or an operator is
/// missing.
pub open spec fn climb_operand(rules: Seq<Rule>, pos: nat, floor: nat) -> Result<(Term, nat), nat>
    decreases rules.len() - pos, 1nat,
{
    if pos >= rules.len() || pos > usize::MAX {
        Err(pos)
    } else {
        climb_rest(rules, Term::Leaf(pos as usize), pos + 1, floor)
    }
}

/// Continues a tree whose left part `left` ends before `pos`.
pub open spec fn climb_rest(rules: Seq<Rule>, left: Term, pos: nat, floor: nat) -> Result<
    (Term, nat),
    nat,
>
    decreases rules.len() - pos, 0nat,
{
    if pos >= rules.len() || pos > usize::MAX {
        Ok((left, pos))
    } else {
        match spec_binding(rules[pos as int]) {
            None => Err(pos),
            Some(binding) => if binding.level >= floor {
                match climb_operand(rules, pos + 1, right_floor(binding)) {
                    Err(at) => Err(at),
                    Ok((right, after)) => if pos < after <= rules.len() {
                        climb_rest(
                            rules,
                            Term::Binary(pos as usize, Box::new(left), Box::new(right)),
                            after,
                            floor,
                        )
                    } else {
                        Err(pos)
                    },
                }
            } else {
                Ok((left, pos))
            },
        }
    }
}

/// The tree of a whole run of operands and operators, or the position at
/// which the run is malformed.
pub open spec fn climb(rules: Seq<Rule>) -> Result<Term, nat> {
    match climb_operand(rules, 0, 0) {
        Ok((term, after)) => Ok(term),
        Err(at) => Err(at),
    }
}

/// The rules of a run of nodes.
pub open spec fn rules_of(nodes: Seq<Pair>) -> Seq<Rule> {
    nodes.map_values(|p: Pair| p.rule)
}

/// Climbing moves forward: the position after a tree lies behind its start
/// and within the run, and a missing piece is reported at or behind the
/// start too.
pub proof fn lemma_climb_bounds(rules: Seq<Rule>, left: Term, pos: nat, floor: nat)
    ensures
        match climb_operand(rules, pos, floor) {
            Ok((_, after)) => pos < after <= rules.len(),
            Err(at) => pos <= at <= rules.len() || pos > rules.len(),
        },
        match climb_rest(rules, left, pos, floor) {
            Ok((_, after)) => pos <= after && (after <= rules.len() || pos > rules.len()),
            Err(at) => pos <= at <= rules.len(),
        },
    decreases rules.len() - pos, 2nat,
{
    if pos < rules.len() && pos <= usize::MAX {
        lemma_climb_bounds(rules, Term::Leaf(pos as usize), pos + 1, floor);
        match spec_binding(rules[pos as int]) {
            None => {},
            Some(binding) => if binding.level >= floor {
                lemma_climb_bounds(rules, left, pos + 1, right_floor(binding));
                match climb_operand(rules, pos + 1, right_floor(binding)) {
                    Err(at) => {},
                    Ok((right, after)) => {
                        lemma_climb_bounds(
                            rules,
                            Term::Binary(pos as usize, Box::new(left), Box::new(right)),
                            after,
                            floor,
                        );
                    },
                }
            },
        }
    }
}

/// Builds the tree that starts with the operand at `pos`.
pub fn grow_operand(nodes: &Vec<Pair>, pos: usize, floor: u8) -> (r: Result<(Term, usize), usize>)
    ensures
        climb_operand(rules_of(nodes@), pos as nat, floor as nat) == match r {
            Ok((term, after)) => Ok::<(Term, nat), nat>((term, after as nat)),
            Err(at) => Err(at as nat),
        },
    decreases nodes.len() - pos, 1nat,
{
    if pos >= nodes.len() {
        Err(pos)
    } else {
        grow_rest(nodes, Term::Leaf(pos), pos + 1, floor)
    }
}

/// Continues a tree whose left part ends before `pos`.
pub fn grow_rest(nodes: &Vec<Pair>, left: Term, pos: usize, floor: u8) -> (r: Result<
    (Term, usize),
    usize,
>)
    ensures
        climb_rest(rules_of(nodes@), left, pos as nat, floor as nat) == match r {
            Ok((term, after)) => Ok::<(Term, nat), nat>((term, after as nat)),
            Err(at) => Err(at as nat),
        },
    decreases nodes.len() - pos, 0nat,
{
    if pos >= nodes.len() {
        return Ok((left, pos));
    }
    match binding(nodes[pos].rule) {
        None => Err(pos),
        Some(found) => {
            if found.level >= floor {
                let next: u8 = match found.assoc {
                    Assoc::Left => found.level + 1,
                    Assoc::Right => found.level,
                };
                proof {
                    lemma_climb_bounds(rules_of(nodes@), left, (pos + 1) as nat, next as nat);
                }
                match grow_operand(nodes, pos + 1, next) {
                    Err(at) => Err(at),
                    Ok((right, after)) => grow_rest(
                        nodes,
                        Term::Binary(pos, Box::new(left), Box::new(right)),
                        after,
                        floor,
                    ),
                }
            } else {
                Ok((left, pos))
            }
        },
    }
}

/// Builds the tree of a whole run of operands and operators.
pub fn grow(nodes: &Vec<Pair>) -> (r: Result<Term, usize>)
    ensures
        climb(rules_of(nodes@)) == match r {
            Ok(term) => Ok::<Term, nat>(term),
            Err(at) => Err(at as nat),
        },
{
    match grow_operand(nodes, 0, 0) {
        Ok((term, _)) => Ok(term),
        Err(at) => Err(at),
    }
}

/// The binding of the operator at the root of a tree; a leaf has none.
pub open spec fn root_binding(rules: Seq<Rule>, term: Term) -> Option<Binding> {
    match term {
        Term::Leaf(_) => None,
        Term::Binary(at, _, _) => if at < rules.len() {
            spec_binding(rules[at as int])
        } else {
            None
        },
    }
}

/// The tree covers the positions from `first` to `last` in their order:
/// its leaves are the operands and its inner nodes the operators between
/// them, each with what stands to its left in its left part and what
/// stands to its right in its right part.
pub open spec fn in_order(term: Term, first: int, last: int) -> bool
    decreases term,
{
    match term {
        Term::Leaf(at) => first == at && at == last,
        Term::Binary(at, left, right) => first < at < last && in_order(*left, first, at - 1)
            && in_order(*right, at + 1, last),
    }
}

/// The tree groups by precedence: under an operator stand only operators
/// that bind tighter, or as tight on the side to which their level groups
/// (on the left for a level that groups to the left, on the right for one
/// that groups to the right).
pub open spec fn grouped(rules: Seq<Rule>, term: Term) -> bool
    decreases term,
{
    match term {
        Term::Leaf(_) => true,
        Term::Binary(at, left, right) => {
            &&& root_binding(rules, term) matches Some(here)
            &&& grouped(rules, *left)
            &&& grouped(rules, *right)
            &&& root_binding(rules, *left) matches Some(below) ==> below.level > here.level || (
            below.level == here.level && here.assoc == Assoc::Left)
            &&& root_binding(rules, *right) matches Some(below) ==> below.level > here.level || (
            below.level == here.level && here.assoc == Assoc::Right)
        },
    }
}

/// Climbing stops before the operator at `pos`, if one stands there: it
/// binds looser than `floor`.
pub open spec fn stops(rules: Seq<Rule>, pos: int, floor: nat) -> bool {
    0 <= pos < rules.len() ==> (spec_binding(rules[pos]) matches Some(next) && next.level < floor)
}

/// What climbing builds from the operand at `pos` on is in order, groups
/// by precedence, has no operator at its root that binds looser than
/// `floor`, and ends where the text ends or before an operator that does.
pub proof fn lemma_climb_operand(rules: Seq<Rule>, pos: nat, floor: nat)
    requires
        climb_operand(rules, pos, floor) is Ok,
        rules.len() <= usize::MAX,
    ensures
        ({
            let (term, after) = climb_operand(rules, pos, floor)->Ok_0;
            &&& in_order(term, pos as int, after - 1)
            &&& grouped(rules, term)
            &&& root_binding(rules, term) matches Some(root) ==> root.level >= floor
            &&& stops(rules, after as int, floor)
        }),
    decreases rules.len() - pos, 1nat,
{
    lemma_climb_rest(rules, Term::Leaf(pos as usize), pos as int, pos + 1, floor);
}

/// What climbing builds onto a tree `left` that covers the positions from
/// `first` to just before `pos`.
pub proof fn lemma_climb_rest(rules: Seq<Rule>, left: Term, first: int, pos: nat, floor: nat)
    requires
        climb_rest(rules, left, pos, floor) is Ok,
        pos <= rules.len() <= usize::MAX,
        in_order(left, first, pos - 1),
        grouped(rules, left),
        root_binding(rules, left) matches Some(root) ==> root.level >= floor && stops(
            rules,
            pos as int,
            right_floor(root),
        ),
    ensures
        ({
            let (term, after) = climb_rest(rules, left, pos, floor)->Ok_0;
            &&& in_order(term, first, after - 1)
            &&& grouped(rules, term)
            &&& root_binding(rules, term) matches Some(root) ==> root.level >= floor
            &&& stops(rules, after as int, floor)
        }),
    decreases rules.len() - pos, 0nat,
{
    if pos < rules.len() && pos <= usize::MAX {
        let here = spec_binding(rules[pos as int])->Some_0;
        if here.level >= floor {
            lemma_climb_bounds(rules, left, pos + 1, right_floor(here));
            lemma_climb_operand(rules, pos + 1, right_floor(here));
            let (right, after) = climb_operand(rules, pos + 1, right_floor(here))->Ok_0;
            let joined = Term::Binary(pos as usize, Box::new(left), Box::new(right));
            assert(root_binding(rules, joined) == Some(here));
            assert(in_order(joined, first, after - 1));
            assert(grouped(rules, joined));
            lemma_climb_rest(rules, joined, first, after, floor);
        }
    }
}

/// Precedence climbing builds the one tree that the operator table gives:
/// it covers the whole run of operands and operators in their order, and
/// it groups by precedence, so that an operator that binds tighter stands
/// below one that binds looser, operators of one level group to the side
/// that their level names, and no operand or operator is left out or
/// moved.
pub proof fn law_climb_groups_by_precedence(rules: Seq<Rule>)
    requires
        climb(rules) is Ok,
        rules.len() <= usize::MAX,
    ensures
        in_order(climb(rules)->Ok_0, 0, rules.len() - 1),
        grouped(rules, climb(rules)->Ok_0),
{
    lemma_climb_operand(rules, 0, 0);
    lemma_climb_bounds(rules, Term::Leaf(0), 0, 0);
}

/// How three operands with two operators between them group. The second
/// operator takes the middle operand where it binds tighter than the
/// first, or as tight where their level groups to the right; else the
/// first operator takes it.
pub proof fn law_grouping(rules: Seq<Rule>)
    requires
        rules.len() == 5,
        spec_binding(rules[1]) is Some,
        spec_binding(rules[3]) is Some,
    ensures
        ({
            let first = spec_binding(rules[1])->Some_0;
            let second = spec_binding(rules[3])->Some_0;
            let to_the_right = second.level > first.level || (second.level == first.level
                && first.assoc == Assoc::Right);
            climb(rules) == Ok::<Term, nat>(
                if to_the_right {
                    Term::Binary(
                        1,
                        Box::new(Term::Leaf(0)),
                        Box::new(
                            Term::Binary(3, Box::new(Term::Leaf(2)), Box::new(Term::Leaf(4))),
                        ),
                    )
                } else {
                    Term::Binary(
                        3,
                        Box::new(
                            Term::Binary(1, Box::new(Term::Leaf(0)), Box::new(Term::Leaf(2))),
                        ),
                        Box::new(Term::Leaf(4)),
                    )
                },
            )
        }),
{
    reveal_with_fuel(climb_operand, 4);
    reveal_with_fuel(climb_rest, 4);
}

/// The operator table: `^` binds tighter than `*` and `/`, these tighter
/// than `+` and `-`, these tighter than the comparisons; `^` groups to the
/// right and every other operator to the left.
pub proof fn law_operator_table()
    ensures
        spec_binding(Rule::power)->Some_0.level > spec_binding(Rule::multiply)->Some_0.level,
        spec_binding(Rule::multiply)->Some_0.level == spec_binding(Rule::divide)->Some_0.level,
        spec_binding(Rule::multiply)->Some_0.level > spec_binding(Rule::add)->Some_0.level,
        spec_binding(Rule::add)->Some_0.level == spec_binding(Rule::subtract)->Some_0.level,
        spec_binding(Rule::add)->Some_0.level > spec_binding(Rule::comparison)->Some_0.level,
        spec_binding(Rule::power)->Some_0.assoc == Assoc::Right,
        forall|rule: Rule|
            rule != Rule::power && spec_binding(rule) is Some ==> (#[trigger] spec_binding(
                rule,
            ))->Some_0.assoc == Assoc::Left,
{
}

/// The run has an operand at every even place and an operator of the
/// table at every odd place, and it ends with an operand.
pub open spec fn alternates(rules: Seq<Rule>) -> bool {
    &&& rules.len() % 2 == 1
    &&& forall|i: int| 0 <= i < rules.len() && i % 2 == 1 ==> spec_binding(#[trigger] rules[i]) is Some
}

/// Climbing from an operand of a run that alternates succeeds.
pub proof fn lemma_climb_succeeds(rules: Seq<Rule>, left: Term, pos: nat, floor: nat)
    requires
        alternates(rules),
        rules.len() <= usize::MAX,
    ensures
        pos < rules.len() && pos % 2 == 0 ==> climb_operand(rules, pos, floor) is Ok,
        pos <= rules.len() && pos % 2 == 1 ==> climb_rest(rules, left, pos, floor) is Ok,
        climb_operand(rules, pos, floor) matches Ok((_, after)) ==> pos % 2 == 0 ==> after % 2
            == 1,
        climb_rest(rules, left, pos, floor) matches Ok((_, after)) ==> pos % 2 == 1 ==> after % 2
            == 1,
    decreases rules.len() - pos, 2nat,
{
    if pos < rules.len() {
        lemma_climb_bounds(rules, left, pos, floor);
        if pos % 2 == 0 {
            lemma_climb_succeeds(rules, Term::Leaf(pos as usize), pos + 1, floor);
        } else {
            let here = spec_binding(rules[pos as int])->Some_0;
            if here.level >= floor {
                lemma_climb_succeeds(rules, left, pos + 1, right_floor(here));
                lemma_climb_bounds(rules, left, pos + 1, right_floor(here));
                match climb_operand(rules, pos + 1, right_floor(here)) {
                    Ok((right, after)) => {
                        lemma_climb_succeeds(
                            rules,
                            Term::Binary(pos as usize, Box::new(left), Box::new(right)),
                            after,
                            floor,
                        );
                    },
                    Err(_) => {},
                }
            }
        }
    }
}

/// A run of operands with operators of the table between them has a tree:
/// climbing does not fail on it.
pub proof fn law_climb_succeeds(rules: Seq<Rule>)
    requires
        alternates(rules),
        rules.len() <= usize::MAX,
    ensures
        climb(rules) is Ok,
{
    lemma_climb_succeeds(rules, Term::Leaf(0), 0, 0);
}

} // verus!
