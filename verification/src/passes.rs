//! The two passes take the same way through the tokens.
//!
//! [`walk`] is the way through the tokens that the conditions lay out: where the
//! cursor stands and what the stack of conditions holds, step by step, with
//! every condition decided as its token says. The first pass keeps to this way
//! while it decides the conditions, removes directives and takes in files; the
//! second pass then follows it, so that it takes every branch as the first
//! pass took it.
use crate::machine::{
    after, at_end, awaits_include, ends_line, end_fault, lemma_step, opens_condition, pass,
    restarted, spliced, statement_end, step, suppressed, well_formed, Halt, ParserState, Step,
};
use crate::token::{Lexeme, MprocessorDirective, TokenView};
use vstd::prelude::*;

verus! {

/// A place on the way through the tokens: the cursor, and the stack of the
/// conditions that are open there.
pub struct Place {
    pub cursor: int,
    pub ifs: Seq<bool>,
}

/// The place at which a state stands.
pub open spec fn place_of(s: ParserState) -> Place {
    Place { cursor: s.cursor, ifs: s.ifs }
}

/// The place behind the token at `at`, where a pass goes on from there and
/// leaves the tokens as they are. A condition goes by the outcome that its
/// token holds. `None` at the end of the tokens, at a token that is a failure
/// in both passes, at a condition without an outcome, and at a directive in a
/// branch that is taken which changes the tokens or stops the pass.
pub open spec fn glance(tokens: Seq<TokenView>, outcomes: Seq<Option<bool>>, at: Place) -> Option<
    Place,
> {
    let c = at.cursor;
    let active = !suppressed(at.ifs);
    match tokens[c].token {
        Lexeme::Eof => None,
        Lexeme::Directive(d) => if !(tokens[c + 1].token is Comment) {
            None
        } else if opens_condition(d) {
            match outcomes[c] {
                Some(b) => Some(Place { cursor: c + 2, ifs: at.ifs.push(b) }),
                None => None,
            }
        } else if d == MprocessorDirective::M_else {
            if at.ifs.len() == 0 {
                None
            } else {
                Some(
                    Place {
                        cursor: c + 2,
                        ifs: at.ifs.update(at.ifs.len() - 1, !at.ifs.last()),
                    },
                )
            }
        } else if d == MprocessorDirective::M_endif {
            if at.ifs.len() == 0 {
                None
            } else {
                Some(Place { cursor: c + 2, ifs: at.ifs.drop_last() })
            }
        } else if active {
            None
        } else {
            Some(Place { cursor: c + 2, ifs: at.ifs })
        },
        Lexeme::Command(_) => if !active {
            Some(Place { cursor: c + 1, ifs: at.ifs })
        } else if statement_end(tokens, c + 1) < tokens.len() {
            Some(Place { cursor: statement_end(tokens, c + 1), ifs: at.ifs })
        } else {
            None
        },
        Lexeme::Label(_) => if !active {
            Some(Place { cursor: c + 1, ifs: at.ifs })
        } else if tokens[c + 1].token is Colon {
            Some(Place { cursor: c + 2, ifs: at.ifs })
        } else {
            None
        },
        Lexeme::Number(_) | Lexeme::Register(_) | Lexeme::Colon => if active {
            None
        } else {
            Some(Place { cursor: c + 1, ifs: at.ifs })
        },
        _ => Some(Place { cursor: c + 1, ifs: at.ifs }),
    }
}

/// The place after `n` steps from the first token, with no condition open.
pub open spec fn walk(tokens: Seq<TokenView>, outcomes: Seq<Option<bool>>, n: nat) -> Option<Place>
    decreases n,
{
    if n == 0 {
        Some(Place { cursor: 0, ifs: Seq::empty() })
    } else {
        match walk(tokens, outcomes, (n - 1) as nat) {
            Some(at) => if 0 <= at.cursor < tokens.len() {
                glance(tokens, outcomes, at)
            } else {
                None
            },
            None => None,
        }
    }
}

/// The state stands where the way through its own tokens leads in `n` steps.
pub open spec fn on_the_way(s: ParserState, n: nat) -> bool {
    walk(s.tokens, s.outcomes, n) == Some(place_of(s))
}

proof fn lemma_statement_end_from(tokens: Seq<TokenView>, i: int)
    ensures
        i <= statement_end(tokens, i),
        0 <= i ==> statement_end(tokens, i) <= tokens.len() || statement_end(tokens, i) == i,
        forall|k: int| i <= k < statement_end(tokens, i) ==> !ends_line(#[trigger] tokens[k].token),
        0 <= statement_end(tokens, i) < tokens.len() ==> ends_line(
            tokens[statement_end(tokens, i)].token,
        ),
    decreases tokens.len() - i,
{
    if 0 <= i < tokens.len() && !ends_line(tokens[i].token) {
        lemma_statement_end_from(tokens, i + 1);
    }
}

proof fn lemma_statement_end_is(tokens: Seq<TokenView>, i: int, e: int)
    requires
        0 <= i <= e < tokens.len(),
        forall|k: int| i <= k < e ==> !ends_line(#[trigger] tokens[k].token),
        ends_line(tokens[e].token),
    ensures
        statement_end(tokens, i) == e,
    decreases e - i,
{
    if i < e {
        lemma_statement_end_is(tokens, i + 1, e);
    }
}

/// A step on the way moves the cursor on.
proof fn lemma_glance_moves_on(tokens: Seq<TokenView>, outcomes: Seq<Option<bool>>, at: Place)
    ensures
        glance(tokens, outcomes, at) matches Some(next) ==> at.cursor < next.cursor,
{
    lemma_statement_end_from(tokens, at.cursor + 1);
}

/// The way is the same over tokens and outcomes that are the same below the
/// place to which it leads, and at that place where a statement ends there.
proof fn lemma_walk_stable(
    tokens: Seq<TokenView>,
    outcomes: Seq<Option<bool>>,
    tokens2: Seq<TokenView>,
    outcomes2: Seq<Option<bool>>,
    n: nat,
)
    requires
        walk(tokens, outcomes, n) is Some,
        walk(tokens, outcomes, n)->0.cursor <= tokens2.len(),
        forall|k: int|
            0 <= k < walk(tokens, outcomes, n)->0.cursor ==> tokens2[k] == #[trigger] tokens[k],
        forall|k: int|
            0 <= k < walk(tokens, outcomes, n)->0.cursor ==> outcomes2[k]
                == #[trigger] outcomes[k],
        ({
            let c = walk(tokens, outcomes, n)->0.cursor;
            0 <= c < tokens.len() && ends_line(tokens[c].token) ==> c < tokens2.len() && tokens2[c]
                == tokens[c]
        }),
    ensures
        walk(tokens2, outcomes2, n) == walk(tokens, outcomes, n),
    decreases n,
{
    if n > 0 {
        let before = (n - 1) as nat;
        let prev = walk(tokens, outcomes, before)->0;
        let at = walk(tokens, outcomes, n)->0;
        lemma_glance_moves_on(tokens, outcomes, prev);
        assert(tokens2[prev.cursor] == tokens[prev.cursor]);
        lemma_walk_stable(tokens, outcomes, tokens2, outcomes2, before);
        let c = prev.cursor;
        assert(outcomes2[c] == outcomes[c]);
        if let Lexeme::Command(_) = tokens[c].token {
            if !suppressed(prev.ifs) {
                let e = statement_end(tokens, c + 1);
                lemma_statement_end_from(tokens, c + 1);
                assert forall|k: int| c + 1 <= k < e implies !ends_line(
                    #[trigger] tokens2[k].token,
                ) by {
                    assert(tokens2[k] == tokens[k]);
                }
                lemma_statement_end_is(tokens2, c + 1, e);
            }
        } else if at.cursor == c + 2 {
            assert(tokens2[c + 1] == tokens[c + 1]);
        }
        assert(glance(tokens2, outcomes2, prev) == glance(tokens, outcomes, prev));
    }
}

/// A way that leads on for `n` steps leads on for every number of steps below.
proof fn lemma_walk_leads_on(
    tokens: Seq<TokenView>,
    outcomes: Seq<Option<bool>>,
    n: nat,
    m: nat,
)
    requires
        walk(tokens, outcomes, n) is Some,
        m <= n,
    ensures
        walk(tokens, outcomes, m) is Some,
    decreases n - m,
{
    if m < n {
        lemma_walk_leads_on(tokens, outcomes, n, m + 1);
    }
}

/// The first pass keeps to the way: after a step the state stands on the way
/// through the tokens as they then are. The result is the number of steps of
/// that way.
pub proof fn lemma_first_pass_keeps_to_the_way(s: ParserState, n: nat) -> (m: nat)
    requires
        well_formed(s),
        !at_end(s),
        !s.second_pass,
        on_the_way(s, n),
        step(s) is Next,
    ensures
        on_the_way(step(s)->Next_0, m),
{
    let next = step(s)->Next_0;
    lemma_step(s);
    lemma_statement_end_from(s.tokens, s.cursor + 1);
    if next.tokens != s.tokens {
        lemma_walk_stable(s.tokens, s.outcomes, next.tokens, next.outcomes, n);
        n
    } else {
        lemma_walk_stable(s.tokens, s.outcomes, next.tokens, next.outcomes, n);
        assert(glance(next.tokens, next.outcomes, place_of(s)) == Some(place_of(next)));
        (n + 1) as nat
    }
}

/// The tokens of an included file leave the state on the way.
pub proof fn lemma_splice_keeps_to_the_way(s: ParserState, included: Seq<TokenView>, n: nat)
    requires
        well_formed(s),
        awaits_include(s),
        included.len() > 0,
        on_the_way(s, n),
    ensures
        on_the_way(spliced(s, included), n),
{
    let t = spliced(s, included);
    lemma_walk_stable(s.tokens, s.outcomes, t.tokens, t.outcomes, n);
}

/// The first pass keeps to the way up to the place where it stops. The result
/// is the number of steps of the way to that place.
pub proof fn lemma_pass_keeps_to_the_way(s: ParserState, n: nat) -> (m: nat)
    requires
        well_formed(s),
        !s.second_pass,
        on_the_way(s, n),
    ensures
        on_the_way(pass(s).state, m),
    decreases s.tokens.len() - s.cursor,
{
    if at_end(s) {
        n
    } else {
        match step(s) {
            Step::Next(next) => {
                lemma_step(s);
                let k = lemma_first_pass_keeps_to_the_way(s, n);
                lemma_pass_keeps_to_the_way(next, k)
            },
            _ => n,
        }
    }
}

/// A step of the second pass goes where the way leads, where the way leads on,
/// and changes neither tokens nor outcomes.
proof fn lemma_second_pass_step(s: ParserState)
    requires
        well_formed(s),
        !at_end(s),
        s.second_pass,
        glance(s.tokens, s.outcomes, place_of(s)) is Some,
    ensures
        !(step(s) is Include),
        step(s) matches Step::Next(next) ==> {
            &&& Some(place_of(next)) == glance(s.tokens, s.outcomes, place_of(s))
            &&& next.tokens == s.tokens
            &&& next.outcomes == s.outcomes
        },
{
    lemma_statement_end_from(s.tokens, s.cursor + 1);
}

/// The second pass takes the way of the first.
///
/// `f` is the state in which the first pass came to the end of the tokens with
/// every condition closed, on a way of `n` steps. After `m` steps of the second
/// pass the tokens and the outcomes are what they were, and the second pass
/// stands where that way leads in `m` steps: at the same token with the same
/// conditions open, each with the same entry. Where it does not stand at the
/// end, the way leads on from its place: so a condition that it meets holds the
/// outcome that the first pass found, and the second pass asks for no file.
pub proof fn lemma_second_pass_takes_the_way_of_the_first(f: ParserState, n: nat, m: nat)
    requires
        well_formed(f),
        !f.second_pass,
        at_end(f),
        end_fault(f) is None,
        on_the_way(f, n),
        after(restarted(f), m) is Some,
    ensures
        ({
            let t = after(restarted(f), m)->0;
            &&& t.second_pass
            &&& t.tokens == f.tokens
            &&& t.outcomes == f.outcomes
            &&& m <= n
            &&& walk(f.tokens, f.outcomes, m) == Some(place_of(t))
            &&& well_formed(t) && !at_end(t) ==> {
                &&& glance(f.tokens, f.outcomes, place_of(t)) is Some
                &&& !(step(t) is Include)
                &&& (t.tokens[t.cursor].token matches Lexeme::Directive(d) && opens_condition(d)
                    ==> t.outcomes[t.cursor] is Some && (step(t) matches Step::Next(next)
                    ==> next.ifs == t.ifs.push(f.outcomes[t.cursor]->0)))
            }
        }),
    decreases m,
{
    let t = after(restarted(f), m)->0;
    if m == 0 {
        assert(f.ifs =~= Seq::<bool>::empty());
    } else {
        let before = (m - 1) as nat;
        lemma_second_pass_takes_the_way_of_the_first(f, n, before);
        let prev = after(restarted(f), before)->0;
        assert(well_formed(prev) && !at_end(prev));
        assert(step(prev) == Step::Next(t));
        lemma_second_pass_step(prev);
        lemma_step(prev);
    }
    if well_formed(t) && !at_end(t) {
        if m == n {
            assert(place_of(t) == place_of(f));
        }
        lemma_walk_leads_on(f.tokens, f.outcomes, n, (m + 1) as nat);
        lemma_second_pass_step(t);
    }
}

/// The first pass, from the first token on, leaves a state from which the
/// second pass takes its way: a parser that was just made stands on the way.
pub proof fn lemma_initial_is_on_the_way(tokens: Seq<TokenView>)
    ensures
        on_the_way(crate::machine::initial(tokens), 0),
{
    assert(crate::machine::initial(tokens).ifs =~= Seq::<bool>::empty());
}

/// Whether `later` holds what `s` has read: the tokens and the outcomes below
/// the cursor of `s`, and the token at that cursor where it ends a statement.
pub open spec fn keeps_what_was_read(s: ParserState, later: ParserState) -> bool {
    &&& s.cursor <= later.cursor
    &&& s.cursor <= later.tokens.len()
    &&& forall|k: int| 0 <= k < s.cursor ==> later.tokens[k] == #[trigger] s.tokens[k]
    &&& forall|k: int| 0 <= k < s.cursor ==> later.outcomes[k] == #[trigger] s.outcomes[k]
    &&& ends_line(s.tokens[s.cursor].token) ==> s.cursor < later.tokens.len()
        && later.tokens[s.cursor] == s.tokens[s.cursor]
}

/// A step changes nothing that was read.
pub proof fn lemma_step_keeps_what_was_read(s: ParserState)
    requires
        well_formed(s),
        !at_end(s),
    ensures
        step(s) matches Step::Next(next) ==> keeps_what_was_read(s, next),
{
    lemma_step(s);
    lemma_statement_end_from(s.tokens, s.cursor + 1);
}

/// The tokens of an included file change nothing that was read.
pub proof fn lemma_splice_keeps_what_was_read(s: ParserState, included: Seq<TokenView>)
    requires
        well_formed(s),
        awaits_include(s),
        included.len() > 0,
    ensures
        keeps_what_was_read(s, spliced(s, included)),
{
}

/// A pass changes nothing that was read before it.
pub proof fn lemma_pass_keeps_what_was_read(s: ParserState)
    requires
        well_formed(s),
    ensures
        keeps_what_was_read(s, pass(s).state),
    decreases s.tokens.len() - s.cursor,
{
    if !at_end(s) {
        if let Step::Next(next) = step(s) {
            lemma_step(s);
            lemma_step_keeps_what_was_read(s);
            lemma_pass_keeps_what_was_read(next);
        }
    }
}

/// Both passes meet a token with the same conditions open.
///
/// `s` is a state of the first pass, `k` steps along the way, and `f` a later
/// state in which the first pass came to the end of the tokens with every
/// condition closed. After `k` steps the second pass stands where the first
/// pass stood in `s`: at the same token, with the same stack of conditions.
pub proof fn lemma_same_place_in_both_passes(s: ParserState, k: nat, f: ParserState, n: nat)
    requires
        well_formed(s),
        !s.second_pass,
        on_the_way(s, k),
        keeps_what_was_read(s, f),
        well_formed(f),
        !f.second_pass,
        at_end(f),
        end_fault(f) is None,
        on_the_way(f, n),
        after(restarted(f), k) is Some,
    ensures
        place_of(after(restarted(f), k)->0) == place_of(s),
        after(restarted(f), k)->0.tokens[s.cursor] == f.tokens[s.cursor],
{
    lemma_walk_stable(s.tokens, s.outcomes, f.tokens, f.outcomes, k);
    lemma_second_pass_takes_the_way_of_the_first(f, n, k);
}

} // verus!
