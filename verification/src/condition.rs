//! Conditional-ACE expressions.

use crate::token::{AccessToken, ClaimValue, ClaimView};
use crate::Sid;
use vstd::prelude::*;

verus! {

/// A conditional-ACE expression, evaluated against a token's groups and claims.
/// This is the semantic core; parsing the SDDL condition string into this AST
/// is a separate (SD-parser) concern.
#[derive(Debug, PartialEq, Eq)]
pub enum Condition {
    /// Unconditional (a plain ACCESS_ALLOWED / ACCESS_DENIED ACE).
    Always,
    /// `Member_of {SIDs}` — the token must contain **all** listed SIDs.
    MemberOfAll(Vec<Sid>),
    /// `Member_of_Any {SIDs}` — the token must contain **any** listed SID.
    MemberOfAny(Vec<Sid>),
    /// A named claim equals a value.
    ClaimEq(String, ClaimValue),
    /// A named claim is present.
    ClaimPresent(String),
    /// Logical negation of the inner condition.
    Not(Box<Condition>),
    /// Logical AND of all inner conditions.
    And(Vec<Condition>),
    /// Logical OR of any inner condition.
    Or(Vec<Condition>),
}

/// What a [`Condition`] stands for: the expression, with its strings as
/// sequences of characters and its lists as sequences.
#[verifier::ext_equal]
pub enum ConditionView {
    /// Always true.
    Always,
    /// All of the SIDs are held.
    MemberOfAll(Seq<Seq<char>>),
    /// One of the SIDs is held.
    MemberOfAny(Seq<Seq<char>>),
    /// The named claim has the value.
    ClaimEq(Seq<char>, ClaimView),
    /// The named claim is there.
    ClaimPresent(Seq<char>),
    /// The inner expression is false.
    Not(Box<ConditionView>),
    /// All of the inner expressions are true.
    And(Seq<ConditionView>),
    /// One of the inner expressions is true.
    Or(Seq<ConditionView>),
}

/// The SIDs of a list, each as a sequence of characters.
pub open spec fn sid_views(sids: Seq<Sid>) -> Seq<Seq<char>> {
    sids.map_values(|sid: Sid| sid@)
}

impl View for Condition {
    type V = ConditionView;

    open spec fn view(&self) -> ConditionView
        decreases self,
    {
        match self {
            Condition::Always => ConditionView::Always,
            Condition::MemberOfAll(sids) => ConditionView::MemberOfAll(sid_views(sids@)),
            Condition::MemberOfAny(sids) => ConditionView::MemberOfAny(sid_views(sids@)),
            Condition::ClaimEq(name, val) => ConditionView::ClaimEq(name@, val@),
            Condition::ClaimPresent(name) => ConditionView::ClaimPresent(name@),
            Condition::Not(inner) => ConditionView::Not(Box::new((**inner).view())),
            Condition::And(parts) => ConditionView::And(
                Seq::new(
                    parts@.len(),
                    |i: int|
                        if 0 <= i < parts@.len() {
                            parts@[i].view()
                        } else {
                            ConditionView::Always
                        },
                ),
            ),
            Condition::Or(parts) => ConditionView::Or(
                Seq::new(
                    parts@.len(),
                    |i: int|
                        if 0 <= i < parts@.len() {
                            parts@[i].view()
                        } else {
                            ConditionView::Always
                        },
                ),
            ),
        }
    }
}

fn clone_sids(sids: &Vec<Sid>) -> (copy: Vec<Sid>)
    ensures
        copy@ == sids@,
{
    let mut copy: Vec<Sid> = Vec::new();
    let mut i: usize = 0;
    while i < sids.len()
        invariant
            i <= sids@.len(),
            copy@ == sids@.take(i as int),
        decreases sids@.len() - i,
    {
        copy.push(sids[i].clone());
        i += 1;
    }
    copy
}

fn clone_parts(parts: &Vec<Condition>) -> (copy: Vec<Condition>)
    ensures
        copy@.len() == parts@.len(),
        forall|i: int| 0 <= i < parts@.len() ==> (#[trigger] copy@[i])@ == parts@[i]@,
    decreases parts,
{
    let mut copy: Vec<Condition> = Vec::new();
    let mut i: usize = 0;
    while i < parts.len()
        invariant
            i <= parts@.len(),
            copy@.len() == i,
            forall|j: int| 0 <= j < i ==> (#[trigger] copy@[j])@ == parts@[j]@,
        decreases parts@.len() - i,
    {
        copy.push(parts[i].clone());
        i += 1;
    }
    copy
}

impl Clone for Condition {
    fn clone(&self) -> (copy: Self)
        ensures
            copy@ == self@,
        decreases self,
    {
        let copy: Condition = match self {
            Condition::Always => Condition::Always,
            Condition::MemberOfAll(sids) => Condition::MemberOfAll(clone_sids(sids)),
            Condition::MemberOfAny(sids) => Condition::MemberOfAny(clone_sids(sids)),
            Condition::ClaimEq(name, val) => Condition::ClaimEq(name.clone(), val.clone()),
            Condition::ClaimPresent(name) => Condition::ClaimPresent(name.clone()),
            Condition::Not(inner) => Condition::Not(Box::new((**inner).clone())),
            Condition::And(parts) => Condition::And(clone_parts(parts)),
            Condition::Or(parts) => Condition::Or(clone_parts(parts)),
        };
        proof {
            match self {
                Condition::And(_) => {
                    assert(copy@->And_0 =~= self@->And_0);
                },
                Condition::Or(_) => {
                    assert(copy@->Or_0 =~= self@->Or_0);
                },
                _ => {},
            }
        }
        copy
    }
}

impl Condition {
    /// The condition is true of `token`.
    pub open spec fn holds(self, token: AccessToken) -> bool
        decreases self,
    {
        match self {
            Condition::Always => true,
            Condition::MemberOfAll(sids) => forall|i: int|
                0 <= i < sids@.len() ==> token.holds_sid(#[trigger] sids@[i]@),
            Condition::MemberOfAny(sids) => exists|i: int|
                0 <= i < sids@.len() && token.holds_sid(#[trigger] sids@[i]@),
            Condition::ClaimEq(name, val) => token.claim_value(name@) == Some(val@),
            Condition::ClaimPresent(name) => token.claim_value(name@) is Some,
            Condition::Not(inner) => !inner.holds(token),
            Condition::And(parts) => forall|i: int|
                0 <= i < parts@.len() ==> (#[trigger] parts@[i]).holds(token),
            Condition::Or(parts) => exists|i: int|
                0 <= i < parts@.len() && (#[trigger] parts@[i]).holds(token),
        }
    }

    /// Evaluate the condition against `token`. Unknown claims evaluate to
    /// `false` (a missing claim never satisfies a comparison).
    pub fn eval(&self, token: &AccessToken) -> (result: bool)
        ensures
            result == self.holds(*token),
        decreases self,
    {
        match self {
            Condition::Always => true,
            Condition::MemberOfAll(sids) => token.contains_all(sids),
            Condition::MemberOfAny(sids) => token.contains_any(sids),
            Condition::ClaimEq(name, val) => match token.claim(name) {
                Some(held) => *held == *val,
                None => false,
            },
            Condition::ClaimPresent(name) => token.claim(name).is_some(),
            Condition::Not(inner) => !inner.eval(token),
            Condition::And(parts) => Condition::eval_all(parts, token),
            Condition::Or(parts) => Condition::eval_any(parts, token),
        }
    }

    fn eval_all(parts: &Vec<Condition>, token: &AccessToken) -> (result: bool)
        ensures
            result == forall|i: int|
                0 <= i < parts@.len() ==> (#[trigger] parts@[i]).holds(*token),
        decreases parts,
    {
        let mut i: usize = 0;
        while i < parts.len()
            invariant
                i <= parts@.len(),
                forall|j: int| 0 <= j < i ==> (#[trigger] parts@[j]).holds(*token),
            decreases parts@.len() - i,
        {
            if !parts[i].eval(token) {
                return false;
            }
            i += 1;
        }
        true
    }

    fn eval_any(parts: &Vec<Condition>, token: &AccessToken) -> (result: bool)
        ensures
            result == exists|i: int|
                0 <= i < parts@.len() && (#[trigger] parts@[i]).holds(*token),
        decreases parts,
    {
        let mut i: usize = 0;
        while i < parts.len()
            invariant
                i <= parts@.len(),
                forall|j: int| 0 <= j < i ==> !(#[trigger] parts@[j]).holds(*token),
            decreases parts@.len() - i,
        {
            if parts[i].eval(token) {
                return true;
            }
            i += 1;
        }
        false
    }
}

impl Condition {
    /// Conditions that stand for the same expression hold of the same tokens.
    pub proof fn equal_expressions_hold_alike(self, other: Condition, token: AccessToken)
        requires
            self@ == other@,
        ensures
            self.holds(token) == other.holds(token),
        decreases self,
    {
        match (self, other) {
            (Condition::MemberOfAll(a), Condition::MemberOfAll(b))
            | (Condition::MemberOfAny(a), Condition::MemberOfAny(b)) => {
                assert(sid_views(a@) == sid_views(b@));
                assert(a@.len() == sid_views(a@).len() && b@.len() == sid_views(b@).len());
                assert forall|i: int| 0 <= i < a@.len() implies #[trigger] a@[i]@ == b@[i]@ by {
                    assert(sid_views(a@)[i] == sid_views(b@)[i]);
                }
                assert forall|i: int| 0 <= i < b@.len() implies #[trigger] b@[i]@ == a@[i]@ by {
                    assert(sid_views(a@)[i] == sid_views(b@)[i]);
                }
            },
            (Condition::Not(a), Condition::Not(b)) => {
                (*a).equal_expressions_hold_alike(*b, token);
            },
            (Condition::And(a), Condition::And(b)) => {
                assert(self@->And_0.len() == a@.len() && other@->And_0.len() == b@.len());
                assert forall|i: int| 0 <= i < a@.len() implies (#[trigger] a@[i]).holds(token)
                    == b@[i].holds(token) by {
                    assert(self@->And_0[i] == a@[i]@ && other@->And_0[i] == b@[i]@);
                    a@[i].equal_expressions_hold_alike(b@[i], token);
                }
                assert forall|i: int| 0 <= i < b@.len() implies (#[trigger] b@[i]).holds(token)
                    == a@[i].holds(token) by {
                    assert(a@[i].holds(token) == b@[i].holds(token));
                }
            },
            (Condition::Or(a), Condition::Or(b)) => {
                assert(self@->Or_0.len() == a@.len() && other@->Or_0.len() == b@.len());
                assert forall|i: int| 0 <= i < a@.len() implies (#[trigger] a@[i]).holds(token)
                    == b@[i].holds(token) by {
                    assert(self@->Or_0[i] == a@[i]@ && other@->Or_0[i] == b@[i]@);
                    a@[i].equal_expressions_hold_alike(b@[i], token);
                }
                assert forall|i: int| 0 <= i < b@.len() implies (#[trigger] b@[i]).holds(token)
                    == a@[i].holds(token) by {
                    assert(a@[i].holds(token) == b@[i].holds(token));
                }
            },
            _ => {},
        }
    }

    /// A condition sees of a token only the SIDs that it holds and the values
    /// of its claims: whether a SID is the user or a group, in which order the
    /// groups stand, and what else the token carries does not matter.
    pub proof fn only_sids_and_claims_matter(self, first: AccessToken, second: AccessToken)
        requires
            first.same_sids(second),
            first.same_claims(second),
        ensures
            self.holds(first) == self.holds(second),
        decreases self,
    {
        match self {
            Condition::Not(inner) => {
                (*inner).only_sids_and_claims_matter(first, second);
            },
            Condition::And(parts) | Condition::Or(parts) => {
                assert forall|i: int| 0 <= i < parts@.len() implies (#[trigger] parts@[i]).holds(
                    first,
                ) == parts@[i].holds(second) by {
                    parts@[i].only_sids_and_claims_matter(first, second);
                }
            },
            _ => {},
        }
    }

    /// A claim that the token does not carry is neither present nor equal to
    /// any value.
    pub proof fn missing_claim_never_holds(name: String, value: ClaimValue, token: AccessToken)
        requires
            token.claim_value(name@) is None,
        ensures
            !Condition::ClaimEq(name, value).holds(token),
            !Condition::ClaimPresent(name).holds(token),
    {
    }

    /// A claim that equals a value is present, and equals no other value.
    pub proof fn claim_has_one_value(
        name: String,
        value: ClaimValue,
        other: ClaimValue,
        token: AccessToken,
    )
        requires
            Condition::ClaimEq(name, value).holds(token),
        ensures
            Condition::ClaimPresent(name).holds(token),
            Condition::ClaimEq(name, other).holds(token) <==> other@ == value@,
    {
    }

    /// Negating twice changes nothing.
    pub proof fn double_negation(self, token: AccessToken)
        ensures
            Condition::Not(Box::new(Condition::Not(Box::new(self)))).holds(token) == self.holds(
                token,
            ),
    {
        reveal_with_fuel(Condition::holds, 3);
    }

    /// Where `negated` holds the negations of `parts`, "not all of the parts" is
    /// "one of the negations", and "none of the parts" is "all of the negations".
    pub proof fn negation_swaps_all_and_any(
        parts: Vec<Condition>,
        negated: Vec<Condition>,
        token: AccessToken,
    )
        requires
            parts@.len() == negated@.len(),
            forall|i: int|
                0 <= i < parts@.len() ==> #[trigger] negated@[i] == Condition::Not(
                    Box::new(parts@[i]),
                ),
        ensures
            Condition::Not(Box::new(Condition::And(parts))).holds(token) == Condition::Or(
                negated,
            ).holds(token),
            Condition::Not(Box::new(Condition::Or(parts))).holds(token) == Condition::And(
                negated,
            ).holds(token),
    {
        let (all, any) = (Condition::And(parts), Condition::Or(parts));
        let (all_not, any_not) = (Condition::And(negated), Condition::Or(negated));
        assert(Condition::Not(Box::new(all)).holds(token) == !all.holds(token));
        assert(Condition::Not(Box::new(any)).holds(token) == !any.holds(token));
        assert forall|i: int|
            #![trigger negated@[i]]
            #![trigger parts@[i]]
            0 <= i < parts@.len() implies negated@[i].holds(token) == !parts@[i].holds(token)
            && all->And_0@[i] == parts@[i] && any->Or_0@[i] == parts@[i] && all_not->And_0@[i]
            == negated@[i] && any_not->Or_0@[i] == negated@[i] by {
            assert(negated@[i] == Condition::Not(Box::new(parts@[i])));
        }
    }
}

impl Condition {
    /// The unconditional expression holds of every token.
    pub proof fn always_holds(token: AccessToken)
        ensures
            Condition::Always.holds(token),
    {
    }

    /// `Member_of` fails if a single listed SID, wherever it stands in the list,
    /// is neither the user of the token nor one of its groups.
    pub proof fn member_of_needs_every_sid(sids: Vec<Sid>, at: int, token: AccessToken)
        requires
            0 <= at < sids@.len(),
            token.user@ != sids@[at]@,
            forall|g: int| 0 <= g < token.groups@.len() ==> #[trigger] token.groups@[g]@ != sids@[at]@,
        ensures
            !Condition::MemberOfAll(sids).holds(token),
    {
        let condition = Condition::MemberOfAll(sids);
        assert(condition->MemberOfAll_0@[at]@ == sids@[at]@);
        token.holds_user_and_groups_only(sids@[at]@);
    }

    /// `Member_of` holds if each listed SID is the user of the token or one of
    /// its groups.
    pub proof fn member_of_asks_for_no_more(sids: Vec<Sid>, token: AccessToken)
        requires
            forall|i: int|
                0 <= i < sids@.len() ==> token.user@ == #[trigger] sids@[i]@ || exists|g: int|
                    0 <= g < token.groups@.len() && #[trigger] token.groups@[g]@ == sids@[i]@,
        ensures
            Condition::MemberOfAll(sids).holds(token),
    {
        let condition = Condition::MemberOfAll(sids);
        assert(condition.holds(token));
    }

    /// `Member_of_Any` holds as soon as one listed SID, wherever it stands in
    /// the list, is the user of the token or one of its groups.
    pub proof fn member_of_any_needs_one_sid(sids: Vec<Sid>, at: int, token: AccessToken)
        requires
            0 <= at < sids@.len(),
            token.user@ == sids@[at]@ || exists|g: int|
                0 <= g < token.groups@.len() && #[trigger] token.groups@[g]@ == sids@[at]@,
        ensures
            Condition::MemberOfAny(sids).holds(token),
    {
        let condition = Condition::MemberOfAny(sids);
        assert(token.holds_sid(condition->MemberOfAny_0@[at]@));
    }

    /// `Member_of_Any` fails if the user of the token and its groups are all
    /// missing from the list.
    pub proof fn member_of_any_takes_nothing_else(sids: Vec<Sid>, token: AccessToken)
        requires
            forall|i: int| 0 <= i < sids@.len() ==> token.user@ != #[trigger] sids@[i]@,
            forall|i: int, g: int|
                0 <= i < sids@.len() && 0 <= g < token.groups@.len() ==> #[trigger] token.groups@[g]@
                    != #[trigger] sids@[i]@,
        ensures
            !Condition::MemberOfAny(sids).holds(token),
    {
        let condition = Condition::MemberOfAny(sids);
        assert(!condition.holds(token));
    }

    /// `Member_of` of a list is `Member_of` of each SID in it, all joined by
    /// "and"; `Member_of_Any` of a list is the same joined by "or".
    pub proof fn membership_splits_into_single_sids(
        sids: Vec<Sid>,
        singles: Vec<Condition>,
        token: AccessToken,
    )
        requires
            singles@.len() == sids@.len(),
            forall|i: int|
                0 <= i < sids@.len() ==> {
                    &&& #[trigger] singles@[i] is MemberOfAll
                    &&& singles@[i]->MemberOfAll_0@.len() == 1
                    &&& singles@[i]->MemberOfAll_0@[0]@ == sids@[i]@
                },
        ensures
            Condition::MemberOfAll(sids).holds(token) == Condition::And(singles).holds(token),
            Condition::MemberOfAny(sids).holds(token) == Condition::Or(singles).holds(token),
    {
        let (all, any) = (Condition::MemberOfAll(sids), Condition::MemberOfAny(sids));
        let (and, or) = (Condition::And(singles), Condition::Or(singles));
        assert forall|i: int|
            #![trigger sids@[i]]
            #![trigger singles@[i]]
            0 <= i < sids@.len() implies singles@[i].holds(token) == token.holds_sid(sids@[i]@)
            && all->MemberOfAll_0@[i]@ == sids@[i]@ && any->MemberOfAny_0@[i]@ == sids@[i]@
            && and->And_0@[i] == singles@[i] && or->Or_0@[i] == singles@[i] by {
            assert(singles@[i] is MemberOfAll);
            assert(singles@[i]->MemberOfAll_0@[0]@ == sids@[i]@);
        }
        assert(all.holds(token) == and.holds(token));
        assert(any.holds(token) == or.holds(token));
    }

    /// A claim comparison looks at the first claim of the token that bears the
    /// name: it holds exactly if that one is of the same type and has the same
    /// contents. Presence asks for no more than the name.
    pub proof fn comparison_looks_at_the_first_claim(
        name: String,
        value: ClaimValue,
        at: int,
        token: AccessToken,
    )
        requires
            0 <= at < token.claims@.len(),
            token.claims@[at].0@ == name@,
            forall|j: int| 0 <= j < at ==> (#[trigger] token.claims@[j]).0@ != name@,
        ensures
            Condition::ClaimPresent(name).holds(token),
            Condition::ClaimEq(name, value).holds(token) <==> match (token.claims@[at].1, value) {
                (ClaimValue::Str(a), ClaimValue::Str(b)) => a@ == b@,
                (ClaimValue::Int(a), ClaimValue::Int(b)) => a == b,
                _ => false,
            },
    {
        token.first_claim_of_a_name_counts(at);
        token.claims@[at].1.equal_claims_have_equal_contents(value);
    }

    /// Where no claim of the token bears the name, the claim is neither present
    /// nor equal to any value.
    pub proof fn claim_of_no_such_name_never_holds(
        name: String,
        value: ClaimValue,
        token: AccessToken,
    )
        requires
            forall|j: int| 0 <= j < token.claims@.len() ==> (#[trigger] token.claims@[j]).0@ != name@,
        ensures
            !Condition::ClaimPresent(name).holds(token),
            !Condition::ClaimEq(name, value).holds(token),
    {
        token.unnamed_claim_has_no_value(name@);
    }

    /// A negation holds exactly if the inner expression does not.
    pub proof fn negation_is_the_opposite(self, token: AccessToken)
        ensures
            Condition::Not(Box::new(self)).holds(token) == !self.holds(token),
    {
    }

    /// "And" fails if a single part fails, and "or" holds if a single part
    /// holds, wherever the part stands in the list.
    pub proof fn one_part_decides(parts: Vec<Condition>, at: int, token: AccessToken)
        requires
            0 <= at < parts@.len(),
        ensures
            !parts@[at].holds(token) ==> !Condition::And(parts).holds(token),
            parts@[at].holds(token) ==> Condition::Or(parts).holds(token),
    {
        let (all, any) = (Condition::And(parts), Condition::Or(parts));
        assert(all->And_0@[at] == parts@[at] && any->Or_0@[at] == parts@[at]);
        assert(!parts@[at].holds(token) ==> !all.holds(token));
        assert(parts@[at].holds(token) ==> any.holds(token));
    }

    /// "And" holds if all of its parts hold, and "or" fails if all of its parts
    /// fail; so "and" of nothing holds and "or" of nothing fails.
    pub proof fn all_parts_together_decide(parts: Vec<Condition>, token: AccessToken)
        ensures
            (forall|i: int| 0 <= i < parts@.len() ==> (#[trigger] parts@[i]).holds(token))
                ==> Condition::And(parts).holds(token),
            (forall|i: int| 0 <= i < parts@.len() ==> !(#[trigger] parts@[i]).holds(token))
                ==> !Condition::Or(parts).holds(token),
            parts@.len() == 0 ==> Condition::And(parts).holds(token) && !Condition::Or(parts).holds(
                token,
            ),
    {
        let (all, any) = (Condition::And(parts), Condition::Or(parts));
        assert((forall|i: int| 0 <= i < parts@.len() ==> (#[trigger] parts@[i]).holds(token))
            ==> all.holds(token));
        assert((forall|i: int| 0 <= i < parts@.len() ==> !(#[trigger] parts@[i]).holds(token))
            ==> !any.holds(token));
    }

    /// Conditions stand for the same expression exactly if they are of the same
    /// form, with the same SIDs, names and values at the same places, and with
    /// parts that stand for the same expressions.
    pub proof fn equal_expressions_have_equal_parts(self, other: Condition)
        ensures
            self@ == other@ <==> match (self, other) {
                (Condition::Always, Condition::Always) => true,
                (Condition::MemberOfAll(a), Condition::MemberOfAll(b)) => a@.len() == b@.len()
                    && forall|i: int| 0 <= i < a@.len() ==> #[trigger] a@[i]@ == b@[i]@,
                (Condition::MemberOfAny(a), Condition::MemberOfAny(b)) => a@.len() == b@.len()
                    && forall|i: int| 0 <= i < a@.len() ==> #[trigger] a@[i]@ == b@[i]@,
                (Condition::ClaimEq(a, v), Condition::ClaimEq(b, w)) => a@ == b@ && v@ == w@,
                (Condition::ClaimPresent(a), Condition::ClaimPresent(b)) => a@ == b@,
                (Condition::Not(a), Condition::Not(b)) => (*a)@ == (*b)@,
                (Condition::And(a), Condition::And(b)) => a@.len() == b@.len() && forall|i: int|
                    0 <= i < a@.len() ==> (#[trigger] a@[i])@ == b@[i]@,
                (Condition::Or(a), Condition::Or(b)) => a@.len() == b@.len() && forall|i: int|
                    0 <= i < a@.len() ==> (#[trigger] a@[i])@ == b@[i]@,
                _ => false,
            },
    {
        match (self, other) {
            (Condition::MemberOfAll(a), Condition::MemberOfAll(b))
            | (Condition::MemberOfAny(a), Condition::MemberOfAny(b)) => {
                lemma_equal_sids(a@, b@);
            },
            (Condition::And(a), Condition::And(b)) => {
                lemma_equal_parts(self@->And_0, other@->And_0, a@, b@);
            },
            (Condition::Or(a), Condition::Or(b)) => {
                lemma_equal_parts(self@->Or_0, other@->Or_0, a@, b@);
            },
            _ => {},
        }
    }
}

proof fn lemma_equal_sids(a: Seq<Sid>, b: Seq<Sid>)
    ensures
        sid_views(a) == sid_views(b) <==> a.len() == b.len() && forall|i: int|
            0 <= i < a.len() ==> #[trigger] a[i]@ == b[i]@,
{
    if sid_views(a) == sid_views(b) {
        assert(a.len() == sid_views(a).len() && b.len() == sid_views(b).len());
        assert forall|i: int| 0 <= i < a.len() implies #[trigger] a[i]@ == b[i]@ by {
            assert(sid_views(a)[i] == sid_views(b)[i]);
        }
    }
    if a.len() == b.len() && forall|i: int| 0 <= i < a.len() ==> #[trigger] a[i]@ == b[i]@ {
        assert(sid_views(a) =~= sid_views(b));
    }
}

proof fn lemma_equal_parts(
    first: Seq<ConditionView>,
    second: Seq<ConditionView>,
    a: Seq<Condition>,
    b: Seq<Condition>,
)
    requires
        first.len() == a.len(),
        second.len() == b.len(),
        forall|i: int| 0 <= i < a.len() ==> #[trigger] first[i] == a[i]@,
        forall|i: int| 0 <= i < b.len() ==> #[trigger] second[i] == b[i]@,
    ensures
        first == second <==> a.len() == b.len() && forall|i: int|
            0 <= i < a.len() ==> (#[trigger] a[i])@ == b[i]@,
{
    if first == second {
        assert forall|i: int| 0 <= i < a.len() implies (#[trigger] a[i])@ == b[i]@ by {
            assert(first[i] == second[i]);
        }
    }
    if a.len() == b.len() && forall|i: int| 0 <= i < a.len() ==> (#[trigger] a[i])@ == b[i]@ {
        assert(first =~= second);
    }
}

} // verus!
