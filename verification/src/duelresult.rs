use vstd::prelude::*;
use crate::kifu::{DRAW, GOTEWIN, SENTEWIN};

verus! {

/// Tally of the games of a duel, split by the side that the first
/// evaluation table played: index 0 when it moved first, 1 when second.
/// Wins, draws and losses are counted from that table's point of view.
pub struct DuelResult {
    pub win: [u32; 2],
    pub draw: [u32; 2],
    pub lose: [u32; 2],
    pub total: u32,
}

/// The counters a game result adds one to, for each side.
pub open spec fn bumped(c: [u32; 2], side: int, hit: bool) -> Seq<u32> {
    if hit {
        c@.update(side, (c@[side] + 1) as u32)
    } else {
        c@
    }
}

impl DuelResult {
    /// No game played yet.
    pub fn new() -> (r: DuelResult)
        ensures
            r.win@ == seq![0u32, 0u32],
            r.draw@ == seq![0u32, 0u32],
            r.lose@ == seq![0u32, 0u32],
            r.total == 0,
    {
        DuelResult { win: [0u32, 0u32], draw: [0u32, 0u32], lose: [0u32, 0u32], total: 0 }
    }

    /// The same games seen with the two sides exchanged: what was counted for
    /// the first side is counted for the second and the other way round.
    pub fn exchanged(&self) -> (r: DuelResult)
        ensures
            r.win@ == seq![self.win[1], self.win[0]],
            r.draw@ == seq![self.draw[1], self.draw[0]],
            r.lose@ == seq![self.lose[1], self.lose[0]],
            r.total == self.total,
    {
        DuelResult {
            win: [self.win[1], self.win[0]],
            draw: [self.draw[1], self.draw[0]],
            lose: [self.lose[1], self.lose[0]],
            total: self.total,
        }
    }

    /// Records a game in which the first table moved first: `winner` is
    /// `SENTEWIN`, `DRAW` or `GOTEWIN`; any other value only counts the game.
    pub fn sresult(&mut self, winner: i8)
        requires
            old(self).total < u32::MAX,
            winner == SENTEWIN ==> old(self).win[0] < u32::MAX,
            winner == DRAW ==> old(self).draw[0] < u32::MAX,
            winner == GOTEWIN ==> old(self).lose[0] < u32::MAX,
        ensures
            final(self).total == old(self).total + 1,
            final(self).win@ == bumped(old(self).win, 0, winner == SENTEWIN),
            final(self).draw@ == bumped(old(self).draw, 0, winner == DRAW),
            final(self).lose@ == bumped(old(self).lose, 0, winner == GOTEWIN),
    {
        self.total = self.total + 1;
        if winner == SENTEWIN {
            self.win[0] = self.win[0] + 1;
        } else if winner == DRAW {
            self.draw[0] = self.draw[0] + 1;
        } else if winner == GOTEWIN {
            self.lose[0] = self.lose[0] + 1;
        }
    }

    /// Records a game in which the first table moved second: a first-mover
    /// win is a loss for it, a second-mover win a win.
    pub fn gresult(&mut self, winner: i8)
        requires
            old(self).total < u32::MAX,
            winner == SENTEWIN ==> old(self).lose[1] < u32::MAX,
            winner == DRAW ==> old(self).draw[1] < u32::MAX,
            winner == GOTEWIN ==> old(self).win[1] < u32::MAX,
        ensures
            final(self).total == old(self).total + 1,
            final(self).win@ == bumped(old(self).win, 1, winner == GOTEWIN),
            final(self).draw@ == bumped(old(self).draw, 1, winner == DRAW),
            final(self).lose@ == bumped(old(self).lose, 1, winner == SENTEWIN),
    {
        self.total = self.total + 1;
        if winner == SENTEWIN {
            self.lose[1] = self.lose[1] + 1;
        } else if winner == DRAW {
            self.draw[1] = self.draw[1] + 1;
        } else if winner == GOTEWIN {
            self.win[1] = self.win[1] + 1;
        }
    }

    /// The totals of the summary: wins, draws and losses over both sides,
    /// then the games that the first mover won or drew, and those that the
    /// second mover won or drew. `None` when a total does not fit in `u32`.
    pub fn totals(&self) -> (r: Option<(u32, u32, u32, u32, u32)>)
        ensures
            ({
                let tdraw = self.draw[0] + self.draw[1];
                let t = (
                    self.win[0] + self.win[1],
                    tdraw,
                    self.lose[0] + self.lose[1],
                    self.win[0] + self.lose[1] + tdraw,
                    self.win[1] + self.lose[0] + tdraw,
                );
                &&& (t.0 <= u32::MAX && t.1 <= u32::MAX && t.2 <= u32::MAX && t.3 <= u32::MAX && t.4
                    <= u32::MAX) <==> r is Some
                &&& r matches Some(v) ==> v.0 == t.0 && v.1 == t.1 && v.2 == t.2 && v.3 == t.3
                    && v.4 == t.4
            }),
    {
        let twin = self.win[0] as u64 + self.win[1] as u64;
        let tdraw = self.draw[0] as u64 + self.draw[1] as u64;
        let tlose = self.lose[0] as u64 + self.lose[1] as u64;
        let tsen = self.win[0] as u64 + self.lose[1] as u64 + tdraw;
        let tgo = self.win[1] as u64 + self.lose[0] as u64 + tdraw;
        let max = u32::MAX as u64;
        if twin > max || tdraw > max || tlose > max || tsen > max || tgo > max {
            return None;
        }
        Some((twin as u32, tdraw as u32, tlose as u32, tsen as u32, tgo as u32))
    }
}

} // verus!
