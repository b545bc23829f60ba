//! Choosing the move to play: search every legal move, keep those with the
//! best score for the side to move, prefer a capture among them.
use vstd::prelude::*;
use crate::board::{Board, Position};
use crate::coords::move_text;
use crate::legality::legal_moves;
use crate::movegen::Move;
use crate::piece::{Team, valuation_of};
use crate::search::{search, MAX_SEARCH_DEPTH};

verus! {

/// Relies on `rand::Rng::gen_range` with `rand::thread_rng()`: a number drawn
/// from `0..n`. It panics on an empty range, hence `0 < n`.
#[verifier::external_body]
fn random_below(n: usize) -> (r: usize)
    requires
        0 < n,
    ensures
        r < n,
{
    rand::Rng::gen_range(&mut rand::thread_rng(), 0..n)
}

/// The text of a move, e.g. "e2e4".
pub open spec fn text_of(m: Move) -> Seq<char> {
    move_text(m.from.column as int, m.from.row as int, m.to.column as int, m.to.row as int)
}

/// The best score among `s` for `team`: the largest for White, the smallest
/// for Black; 0 when `s` is empty.
pub open spec fn extreme_value(s: Seq<Move>, team: Team) -> int
    decreases s.len(),
{
    if s.len() == 0 {
        0
    } else if s.len() == 1 {
        s[0].value as int
    } else {
        let e = extreme_value(s.drop_last(), team);
        let v = s.last().value as int;
        match team {
            Team::White => if v > e { v } else { e },
            Team::Black => if v < e { v } else { e },
        }
    }
}

/// The signed worth, for `team`, of what `m` takes; 0 if it takes nothing.
pub open spec fn capture_key(m: Move, team: Team) -> int {
    match m.captured {
        Some(r) => valuation_of(r, team),
        None => 0,
    }
}

/// Whether capture `m`, met after capture `b`, replaces it as the choice:
/// White keeps the highest-valued victim (the later one on equal worth),
/// Black the lowest valuation (the earlier one on equal valuation).
pub open spec fn prefers(team: Team, m: Move, b: Move) -> bool {
    match team {
        Team::White => capture_key(m, team) >= capture_key(b, team),
        Team::Black => capture_key(m, team) < capture_key(b, team),
    }
}

/// Whether `m` scores `target` and takes something.
pub open spec fn tied_capture(m: Move, target: int) -> bool {
    m.value == target && m.captured is Some
}

/// The preferred capture among the moves of `s` that score `target`, if any.
pub open spec fn best_capture(s: Seq<Move>, team: Team, target: int) -> Option<Move>
    decreases s.len(),
{
    if s.len() == 0 {
        None
    } else {
        let prev = best_capture(s.drop_last(), team, target);
        let m = s.last();
        if tied_capture(m, target) {
            match prev {
                None => Some(m),
                Some(b) => if prefers(team, m, b) { Some(m) } else { prev },
            }
        } else {
            prev
        }
    }
}

/// The moves of `s` that score `target`, in their order.
pub open spec fn ties(s: Seq<Move>, target: int) -> Seq<Move>
    decreases s.len(),
{
    if s.len() == 0 {
        s
    } else if s.last().value == target {
        ties(s.drop_last(), target).push(s.last())
    } else {
        ties(s.drop_last(), target)
    }
}

/// The move chosen among scored moves `s` for `team`: the preferred capture
/// among the moves with the best score, or else the tied move that `pick`
/// designates (counted round the tied moves). None when `s` is empty.
pub open spec fn selected(s: Seq<Move>, team: Team, pick: int) -> Option<Move> {
    if s.len() == 0 {
        None
    } else {
        let e = extreme_value(s, team);
        match best_capture(s, team, e) {
            Some(m) => Some(m),
            None => {
                let t = ties(s, e);
                Some(t[pick % (t.len() as int)])
            },
        }
    }
}

/// `m` with its value replaced by its search score in `p`.
pub open spec fn scored_move(p: Position, m: Move, depth: int) -> Move {
    Move {
        from: m.from,
        to: m.to,
        captured: m.captured,
        value: search(p, m, depth, isize::MIN as int, isize::MAX as int, p.turn == Team::White) as isize,
    }
}

/// Each of `moves` with its search score as value.
pub open spec fn scored(p: Position, moves: Seq<Move>, depth: int) -> Seq<Move> {
    moves.map_values(|m: Move| scored_move(p, m, depth))
}

/// The best score is one of the scores, and no score beats it.
pub proof fn lemma_extreme_value(s: Seq<Move>, team: Team)
    ensures
        s.len() > 0 ==> exists|i: int| 0 <= i < s.len() && (#[trigger] s[i]).value == extreme_value(s, team),
        team == Team::White ==> forall|i: int| 0 <= i < s.len() ==> (#[trigger] s[i]).value <= extreme_value(s, team),
        team == Team::Black ==> forall|i: int| 0 <= i < s.len() ==> (#[trigger] s[i]).value >= extreme_value(s, team),
    decreases s.len(),
{
    if s.len() == 1 {
        assert(s[0].value == extreme_value(s, team));
    } else if s.len() > 1 {
        let init = s.drop_last();
        lemma_extreme_value(init, team);
        assert forall|i: int| 0 <= i < init.len() implies #[trigger] s[i] == init[i] by {}
        if extreme_value(s, team) == s.last().value {
            assert(s[s.len() - 1].value == extreme_value(s, team));
        } else {
            let j = choose|j: int| 0 <= j < init.len() && (#[trigger] init[j]).value == extreme_value(init, team);
            assert(s[j] == init[j]);
        }
    }
}

proof fn lemma_ties_nonempty(s: Seq<Move>, target: int, i: int)
    requires
        0 <= i < s.len(),
        s[i].value == target,
    ensures
        ties(s, target).len() > 0,
    decreases s.len(),
{
    if i < s.len() - 1 {
        lemma_ties_nonempty(s.drop_last(), target, i);
    }
}

/// What `best_capture` finds: a capture scoring `target` exactly when there is
/// one, and none of them is preferred to it by the side's rule.
pub proof fn lemma_best_capture(s: Seq<Move>, team: Team, target: int)
    ensures
        best_capture(s, team, target) is Some <==> exists|i: int|
            0 <= i < s.len() && tied_capture(#[trigger] s[i], target),
        best_capture(s, team, target) matches Some(m) ==> {
            &&& tied_capture(m, target)
            &&& forall|i: int|
                0 <= i < s.len() && tied_capture(#[trigger] s[i], target) ==> match team {
                    Team::White => capture_key(s[i], team) <= capture_key(m, team),
                    Team::Black => capture_key(m, team) <= capture_key(s[i], team),
                }
        },
    decreases s.len(),
{
    if s.len() > 0 {
        let init = s.drop_last();
        lemma_best_capture(init, team, target);
        assert forall|i: int| 0 <= i < init.len() implies #[trigger] s[i] == init[i] by {}
        let x = s.last();
        assert(s[s.len() - 1] == x);
        if best_capture(init, team, target) is Some {
            let j = choose|j: int| 0 <= j < init.len() && tied_capture(#[trigger] init[j], target);
            assert(tied_capture(s[j], target));
        }
        if exists|i: int| 0 <= i < s.len() && tied_capture(#[trigger] s[i], target) {
            let k = choose|k: int| 0 <= k < s.len() && tied_capture(#[trigger] s[k], target);
            if k < init.len() {
                assert(tied_capture(init[k], target));
            }
        }
    }
}

/// Tie-break: when a capture is among the moves with the best score, the
/// chosen move is such a capture, whatever the pick, and no other capture
/// with that score takes a more valuable piece for the side to move.
pub proof fn lemma_capture_wins_tie(s: Seq<Move>, team: Team, pick: int)
    requires
        exists|i: int| 0 <= i < s.len() && tied_capture(#[trigger] s[i], extreme_value(s, team)),
    ensures
        selected(s, team, pick) matches Some(m) && {
            &&& m.captured is Some
            &&& m.value == extreme_value(s, team)
            &&& forall|i: int|
                0 <= i < s.len() && tied_capture(#[trigger] s[i], extreme_value(s, team)) ==> match team {
                    Team::White => capture_key(s[i], team) <= capture_key(m, team),
                    Team::Black => capture_key(m, team) <= capture_key(s[i], team),
                }
        },
{
    lemma_best_capture(s, team, extreme_value(s, team));
}

/// The best score among the moves for `team`.
fn extreme_score(s: &Vec<Move>, team: Team) -> (e: isize)
    ensures
        e == extreme_value(s@, team),
{
    let mut e: isize = 0;
    let mut i: usize = 0;
    while i < s.len()
        invariant
            i <= s@.len(),
            e == extreme_value(s@.take(i as int), team),
        decreases s@.len() - i,
    {
        let v = s[i].value;
        proof {
            assert(s@.take(i + 1).drop_last() =~= s@.take(i as int));
            assert(s@.take(i + 1).last() == s@[i as int]);
        }
        if i == 0 {
            e = v;
        } else {
            match team {
                Team::White => if v > e {
                    e = v;
                },
                Team::Black => if v < e {
                    e = v;
                },
            }
        }
        i = i + 1;
    }
    proof {
        assert(s@.take(i as int) =~= s@);
    }
    e
}

/// The moves scoring `target`, in their order.
fn collect_ties(s: &Vec<Move>, target: isize) -> (t: Vec<Move>)
    ensures
        t@ == ties(s@, target as int),
{
    let mut t: Vec<Move> = Vec::new();
    let mut i: usize = 0;
    while i < s.len()
        invariant
            i <= s@.len(),
            t@ == ties(s@.take(i as int), target as int),
        decreases s@.len() - i,
    {
        proof {
            assert(s@.take(i + 1).drop_last() =~= s@.take(i as int));
            assert(s@.take(i + 1).last() == s@[i as int]);
        }
        if s[i].value == target {
            t.push(s[i]);
        }
        i = i + 1;
    }
    proof {
        assert(s@.take(i as int) =~= s@);
    }
    t
}

/// The signed worth, for `team`, of what `m` takes.
fn key_of(m: &Move, team: Team) -> (k: isize)
    ensures
        k == capture_key(*m, team),
{
    match m.captured {
        Some(r) => r.valuation(team),
        None => 0,
    }
}

/// The preferred capture among the moves scoring `target`.
fn find_best_capture(s: &Vec<Move>, team: Team, target: isize) -> (r: Option<Move>)
    ensures
        r == best_capture(s@, team, target as int),
{
    let mut best: Option<Move> = None;
    let mut i: usize = 0;
    while i < s.len()
        invariant
            i <= s@.len(),
            best == best_capture(s@.take(i as int), team, target as int),
        decreases s@.len() - i,
    {
        let m = s[i];
        proof {
            assert(s@.take(i + 1).drop_last() =~= s@.take(i as int));
            assert(s@.take(i + 1).last() == s@[i as int]);
        }
        if m.value == target && m.captured.is_some() {
            match best {
                None => {
                    best = Some(m);
                },
                Some(b) => {
                    let km = key_of(&m, team);
                    let kb = key_of(&b, team);
                    let replace = match team {
                        Team::White => km >= kb,
                        Team::Black => km < kb,
                    };
                    if replace {
                        best = Some(m);
                    }
                },
            }
        }
        i = i + 1;
    }
    proof {
        assert(s@.take(i as int) =~= s@);
    }
    best
}

/// How many of the scored moves share the best score for `team`.
fn tie_count(scored: &Vec<Move>, team: Team) -> (n: usize)
    requires
        scored@.len() > 0,
    ensures
        n == ties(scored@, extreme_value(scored@, team)).len(),
        n > 0,
{
    let e = extreme_score(scored, team);
    let t = collect_ties(scored, e);
    proof {
        lemma_extreme_value(scored@, team);
        let i = choose|i: int| 0 <= i < scored@.len() && (#[trigger] scored@[i]).value == extreme_value(scored@, team);
        lemma_ties_nonempty(scored@, e as int, i);
    }
    t.len()
}

impl Board {
    /// The move chosen among `scored`, moves whose values are their search
    /// scores, for side `team`: among those with the best score (highest for
    /// White, lowest for Black) the preferred capture if there is one, else
    /// the tied move that `pick` designates. None when there are no moves.
    pub fn select_move(scored: &Vec<Move>, team: Team, pick: usize) -> (r: Option<Move>)
        ensures
            r == selected(scored@, team, pick as int),
    {
        if scored.len() == 0 {
            return None;
        }
        let e = extreme_score(scored, team);
        match find_best_capture(scored, team, e) {
            Some(m) => Some(m),
            None => {
                let t = collect_ties(scored, e);
                proof {
                    lemma_extreme_value(scored@, team);
                    let i = choose|i: int|
                        0 <= i < scored@.len() && (#[trigger] scored@[i]).value == extreme_value(scored@, team);
                    lemma_ties_nonempty(scored@, e as int, i);
                }
                Some(t[pick % t.len()])
            },
        }
    }

    /// Searches each of `moves` to `depth` from `b` and returns the text of
    /// the chosen one (see `select_move`); a tie without a capture is broken
    /// by a uniformly drawn pick. None when there are no moves.
    pub fn choose_next_move(b: Board, moves: Vec<Move>, depth: isize) -> (r: Option<String>)
        requires
            b.wf(),
            0 <= depth <= MAX_SEARCH_DEPTH,
            forall|i: int| 0 <= i < moves@.len() ==> (#[trigger] moves@[i]).on_board(),
        ensures
            r is None <==> moves@.len() == 0,
            r matches Some(s) ==> exists|pick: int|
                0 <= pick && selected(scored(b@, moves@, depth as int), b@.turn, pick) is Some && s@
                    == text_of(selected(scored(b@, moves@, depth as int), b@.turn, pick)->0),
    {
        let maximizing = match b.next_to_move {
            Team::White => true,
            Team::Black => false,
        };
        let mut res: Vec<Move> = Vec::new();
        let mut i: usize = 0;
        while i < moves.len()
            invariant
                b.wf(),
                0 <= depth <= MAX_SEARCH_DEPTH,
                maximizing == (b@.turn == Team::White),
                forall|i: int| 0 <= i < moves@.len() ==> (#[trigger] moves@[i]).on_board(),
                i <= moves@.len(),
                res@ == scored(b@, moves@.take(i as int), depth as int),
            decreases moves@.len() - i,
        {
            let m = moves[i];
            assert(moves@[i as int].on_board());
            let v = Board::alphabeta(b.copy(), m, depth, isize::MIN, isize::MAX, maximizing);
            res.push(Move { from: m.from, to: m.to, captured: m.captured, value: v });
            proof {
                assert(res@ =~= scored(b@, moves@.take(i + 1), depth as int));
            }
            i = i + 1;
        }
        proof {
            assert(moves@.take(i as int) =~= moves@);
        }
        if res.len() == 0 {
            return None;
        }
        let n = tie_count(&res, b.next_to_move);
        let pick = random_below(n);
        match Board::select_move(&res, b.next_to_move, pick) {
            Some(best) => Some(best.to_algebraic()),
            None => None,
        }
    }

    /// The text of the move to play from `b`, searching `depth` levels below
    /// each legal move; None when the side to move has no legal move.
    pub fn find_next_move(b: &Board, depth: isize) -> (r: Option<String>)
        requires
            b.wf(),
            0 <= depth <= MAX_SEARCH_DEPTH,
        ensures
            r is None <==> legal_moves(b@).len() == 0,
            r matches Some(s) ==> exists|pick: int|
                0 <= pick && selected(scored(b@, legal_moves(b@), depth as int), b@.turn, pick) is Some && s@
                    == text_of(selected(scored(b@, legal_moves(b@), depth as int), b@.turn, pick)->0),
    {
        let all_possible_moves = Board::find_legal_moves(b);
        Board::choose_next_move(b.copy(), all_possible_moves, depth)
    }
}

} // verus!
