//! The exit strategy of an open position.
use vstd::arithmetic::power2::{lemma_pow2_pos, lemma_pow2_strictly_increases, pow2};
use vstd::prelude::*;

use crate::binary64::{
    at_most, below, difference, epsilon, hundred, larger, nought, one, product, quotient, rounded,
    smaller, Binary64, Num,
};
use crate::config::{
    share_ok, valid_configs_are_usable, Config, StrategyConfig, TakeProfitRung,
};
use crate::rounding::{
    lemma_nearest_lower, lemma_nearest_representable, lemma_nearest_scales, lemma_nearest_shrinks,
    lemma_nearest_upper, lemma_pow2_127, nearest, representable, scaled,
};

verus! {

/// One action the state machine can request per price update.
#[derive(Debug, Clone, Copy, PartialEq)]
pub enum StrategyAction {
    /// Hold the position, no changes.
    Hold,
    /// Sell part of the position. `fraction` is above zero and at most one: for a take-profit
    /// it is a share of what is left, for every other exit it is what is left of the original
    /// position. Only a rung whose share is so small that it underflows sells a fraction of
    /// zero. The `reason` is for logs and metrics.
    Sell { fraction: Binary64, reason: SellReason },
    /// Position fully closed; the caller can drop the state machine.
    Closed,
}

#[derive(Debug, Clone, Copy, PartialEq, Eq, Structural)]
pub enum SellReason {
    TakeProfit,
    StopLoss,
    TrailingStop,
    MaxHold,
}

/// An action with its fraction as a number.
pub enum Action {
    Hold,
    Sell { fraction: Num, reason: SellReason },
    Closed,
}

impl View for StrategyAction {
    type V = Action;

    open spec fn view(&self) -> Action {
        match self {
            StrategyAction::Hold => Action::Hold,
            StrategyAction::Sell { fraction, reason } => Action::Sell {
                fraction: fraction@,
                reason: *reason,
            },
            StrategyAction::Closed => Action::Closed,
        }
    }
}

/// A rung of the take-profit ladder: where it fires, and how much of the original
/// position it sells.
pub struct Rung {
    pub multiplier: Num,
    pub sell_pct: Num,
}

/// The settings that the state machine reads.
pub struct Plan {
    pub ladder: Seq<Rung>,
    pub stop_loss: Num,
    pub drawdown: Num,
    pub activation: Num,
    pub max_hold: u64,
}

pub open spec fn plan_of(cfg: StrategyConfig) -> Plan {
    Plan {
        ladder: Seq::new(
            cfg.take_profit_ladder@.len(),
            |i: int|
                Rung {
                    multiplier: cfg.take_profit_ladder@[i].multiplier@,
                    sell_pct: cfg.take_profit_ladder@[i].sell_pct@,
                },
        ),
        stop_loss: cfg.stop_loss_multiplier@,
        drawdown: cfg.trailing_stop_drawdown@,
        activation: cfg.trailing_stop_activation@,
        max_hold: cfg.max_hold_seconds,
    }
}

/// What a position is, as numbers.
pub struct Position {
    pub entry: Num,
    pub entry_secs: u64,
    /// The highest price seen.
    pub peak: Num,
    /// What is left of the original position: one when untouched, zero when closed.
    pub remaining: Num,
    /// Which rungs have fired.
    pub fired: Seq<bool>,
    /// Whether the trailing stop is active.
    pub armed: bool,
    pub plan: Plan,
}

impl Position {
    /// Every rung has its mark.
    pub open spec fn wf(self) -> bool {
        self.fired.len() == self.plan.ladder.len()
    }

    pub open spec fn closed(self) -> bool {
        at_most(self.remaining, epsilon())
    }

    /// The whole rest is sold.
    pub open spec fn sold_out(self, reason: SellReason) -> (Position, Action) {
        (
            Position { remaining: nought(), ..self },
            Action::Sell { fraction: self.remaining, reason },
        )
    }

    /// The price at or below which the stop-loss sells.
    pub open spec fn stop_price(self) -> Num {
        product(self.entry, self.plan.stop_loss)
    }

    /// The price at or above which rung `i` fires.
    pub open spec fn target(self, i: int) -> Num {
        product(self.entry, self.plan.ladder[i].multiplier)
    }

    pub open spec fn reached(self, i: int, price: Num) -> bool {
        !self.fired[i] && at_most(self.target(i), price)
    }

    /// The first rung from `i` on that has not fired and whose target is reached.
    pub open spec fn next_rung(self, price: Num, i: int) -> Option<int>
        decreases self.plan.ladder.len() - i,
    {
        if i < 0 || i >= self.plan.ladder.len() {
            None
        } else if self.reached(i, price) {
            Some(i)
        } else {
            self.next_rung(price, i + 1)
        }
    }

    /// The share of the original position that rung `i` sells.
    pub open spec fn wanted(self, i: int) -> Num {
        quotient(self.plan.ladder[i].sell_pct, hundred())
    }

    /// What is left after `wanted` of the original position is sold.
    pub open spec fn left_after(self, wanted: Num) -> Num {
        let left = larger(difference(self.remaining, wanted), nought());
        if at_most(left, epsilon()) {
            nought()
        } else {
            left
        }
    }

    /// Rung `i` fires: its share of the original position becomes a fraction of the rest.
    pub open spec fn rung_sold(self, i: int) -> (Position, Action) {
        let wanted = self.wanted(i);
        (
            Position {
                fired: self.fired.update(i, true),
                remaining: self.left_after(wanted),
                ..self
            },
            Action::Sell {
                fraction: smaller(quotient(wanted, self.remaining), one()),
                reason: SellReason::TakeProfit,
            },
        )
    }

    /// The price from which the trailing stop is active.
    pub open spec fn activation_price(self) -> Num {
        product(self.entry, self.plan.activation)
    }

    /// The price at or below which an active trailing stop sells.
    pub open spec fn trailing_price(self) -> Num {
        product(self.peak, difference(one(), self.plan.drawdown))
    }

    pub open spec fn with_peak(self, price: Num) -> Position {
        Position {
            peak: if below(self.peak, price) {
                price
            } else {
                self.peak
            },
            ..self
        }
    }

    pub open spec fn with_arming(self) -> Position {
        Position { armed: self.armed || at_most(self.activation_price(), self.peak), ..self }
    }

    pub open spec fn held_for(self, now: u64) -> nat {
        if now >= self.entry_secs {
            (now - self.entry_secs) as nat
        } else {
            0
        }
    }

    /// One price update. Stop-loss comes before the take-profit ladder, the ladder before
    /// the trailing stop, and the trailing stop before the holding limit.
    pub open spec fn tick(self, price: Num, now: u64) -> (Position, Action) {
        if self.closed() {
            (self, Action::Closed)
        } else {
            let seen = self.with_peak(price);
            if at_most(price, seen.stop_price()) {
                seen.sold_out(SellReason::StopLoss)
            } else if seen.next_rung(price, 0) is Some {
                seen.rung_sold(seen.next_rung(price, 0)->0)
            } else {
                let ready = seen.with_arming();
                if ready.armed && at_most(price, ready.trailing_price()) {
                    ready.sold_out(SellReason::TrailingStop)
                } else if ready.held_for(now) >= ready.plan.max_hold {
                    ready.sold_out(SellReason::MaxHold)
                } else {
                    (ready, Action::Hold)
                }
            }
        }
    }
}

/// Position state machine. One instance per open position.
///
/// The caller feeds it price and wall-clock updates and it returns actions. It does not
/// execute trades or hit the network.
#[derive(Debug)]
pub struct PositionState {
    entry_price: Binary64,
    entry_ts_secs: u64,
    peak_price: Binary64,
    remaining: Binary64,
    fired_rungs: Vec<bool>,
    trailing_armed: bool,
    cfg: StrategyConfig,
}

impl View for PositionState {
    type V = Position;

    closed spec fn view(&self) -> Position {
        Position {
            entry: self.entry_price@,
            entry_secs: self.entry_ts_secs,
            peak: self.peak_price@,
            remaining: self.remaining@,
            fired: self.fired_rungs@,
            armed: self.trailing_armed,
            plan: plan_of(self.cfg),
        }
    }
}

impl Clone for PositionState {
    fn clone(&self) -> (r: PositionState)
        ensures
            r@ == self@,
    {
        proof {
            use_type_invariant(self);
        }
        let mut fired_rungs: Vec<bool> = Vec::new();
        let mut i: usize = 0;
        while i < self.fired_rungs.len()
            invariant
                i <= self.fired_rungs@.len(),
                fired_rungs@ == self.fired_rungs@.take(i as int),
            decreases self.fired_rungs@.len() - i,
        {
            fired_rungs.push(self.fired_rungs[i]);
            i = i + 1;
            assert(fired_rungs@ =~= self.fired_rungs@.take(i as int));
        }
        assert(fired_rungs@ =~= self.fired_rungs@);
        let cfg = self.cfg.clone();
        assert(plan_of(cfg).ladder =~= plan_of(self.cfg).ladder);
        PositionState {
            entry_price: self.entry_price,
            entry_ts_secs: self.entry_ts_secs,
            peak_price: self.peak_price,
            remaining: self.remaining,
            fired_rungs,
            trailing_armed: self.trailing_armed,
            cfg,
        }
    }
}

impl PositionState {
    #[verifier::type_invariant]
    spec fn marked(self) -> bool {
        self.fired_rungs@.len() == self.cfg.take_profit_ladder@.len()
    }

    pub fn open(entry_price: Binary64, entry_ts_secs: u64, cfg: StrategyConfig) -> (r:
        PositionState)
        ensures
            r@ == (Position {
                entry: entry_price@,
                entry_secs: entry_ts_secs,
                peak: entry_price@,
                remaining: one(),
                fired: Seq::new(cfg.take_profit_ladder@.len(), |i: int| false),
                armed: false,
                plan: plan_of(cfg),
            }),
            r@.wf(),
    {
        let mut fired_rungs: Vec<bool> = Vec::new();
        while fired_rungs.len() < cfg.take_profit_ladder.len()
            invariant
                fired_rungs@.len() <= cfg.take_profit_ladder@.len(),
                forall|i: int| 0 <= i < fired_rungs@.len() ==> !fired_rungs@[i],
            decreases cfg.take_profit_ladder@.len() - fired_rungs@.len(),
        {
            fired_rungs.push(false);
        }
        assert(fired_rungs@ =~= Seq::new(cfg.take_profit_ladder@.len(), |i: int| false));
        PositionState {
            entry_price,
            entry_ts_secs,
            peak_price: entry_price,
            remaining: Binary64::one(),
            fired_rungs,
            trailing_armed: false,
            cfg,
        }
    }

    pub fn entry_price(&self) -> (r: Binary64)
        ensures
            r@ == self@.entry,
    {
        self.entry_price
    }

    pub fn remaining(&self) -> (r: Binary64)
        ensures
            r@ == self@.remaining,
    {
        self.remaining
    }

    pub fn is_closed(&self) -> (r: bool)
        ensures
            r == self@.closed(),
    {
        self.remaining.le(Binary64::epsilon())
    }

    /// Feed a price tick and current wall-clock time in seconds.
    pub fn on_tick(&mut self, price: Binary64, now_secs: u64) -> (r: StrategyAction)
        ensures
            (final(self)@, r@) == old(self)@.tick(price@, now_secs),
            old(self)@.wf(),
            final(self)@.wf(),
    {
        proof {
            use_type_invariant(&*self);
        }
        if self.is_closed() {
            return StrategyAction::Closed;
        }
        if self.peak_price.lt(price) {
            self.peak_price = price;
        }
        assert(self@ == old(self)@.with_peak(price@));
        if let Some(action) = self.check_stop_loss(price) {
            return action;
        }
        if let Some(action) = self.check_take_profit(price) {
            return action;
        }
        if let Some(action) = self.check_trailing_stop(price) {
            return action;
        }
        if let Some(action) = self.check_max_hold(now_secs) {
            return action;
        }
        StrategyAction::Hold
    }

    /// Sells everything that is left.
    fn sell_out(&mut self, reason: SellReason) -> (r: StrategyAction)
        ensures
            (final(self)@, r@) == old(self)@.sold_out(reason),
    {
        proof {
            use_type_invariant(&*self);
        }
        let fraction = self.remaining;
        self.remaining = Binary64::zero();
        StrategyAction::Sell { fraction, reason }
    }

    fn check_stop_loss(&mut self, price: Binary64) -> (r: Option<StrategyAction>)
        ensures
            r is Some <==> at_most(price@, old(self)@.stop_price()),
            r matches Some(a) ==> (final(self)@, a@) == old(self)@.sold_out(SellReason::StopLoss),
            r is None ==> final(self)@ == old(self)@,
    {
        let threshold = self.entry_price.times(self.cfg.stop_loss_multiplier);
        if price.le(threshold) {
            return Some(self.sell_out(SellReason::StopLoss));
        }
        None
    }

    fn check_take_profit(&mut self, price: Binary64) -> (r: Option<StrategyAction>)
        ensures
            r is Some <==> old(self)@.next_rung(price@, 0) is Some,
            r matches Some(a) ==> (final(self)@, a@) == old(self)@.rung_sold(
                old(self)@.next_rung(price@, 0)->0,
            ),
            r is None ==> final(self)@ == old(self)@,
            final(self)@.wf(),
    {
        proof {
            use_type_invariant(&*self);
        }
        let mut i: usize = 0;
        while i < self.cfg.take_profit_ladder.len()
            invariant
                *self == *old(self),
                self@.wf(),
                i <= self.cfg.take_profit_ladder@.len(),
                self@.next_rung(price@, 0) == self@.next_rung(price@, i as int),
            decreases self.cfg.take_profit_ladder@.len() - i,
        {
            let rung = self.cfg.take_profit_ladder[i];
            let target = self.entry_price.times(rung.multiplier);
            if !self.fired_rungs[i] && target.le(price) {
                self.fired_rungs[i] = true;
                return Some(self.sell_from_rung(&rung));
            }
            i = i + 1;
        }
        None
    }

    /// `sell_pct` is a percentage of the original position. It becomes a fraction of what
    /// is left, so that callers can compute token amounts.
    fn sell_from_rung(&mut self, rung: &TakeProfitRung) -> (r: StrategyAction)
        ensures
            final(self)@ == (Position {
                remaining: old(self)@.left_after(quotient(rung.sell_pct@, hundred())),
                ..old(self)@
            }),
            r@ == (Action::Sell {
                fraction: smaller(
                    quotient(quotient(rung.sell_pct@, hundred()), old(self)@.remaining),
                    one(),
                ),
                reason: SellReason::TakeProfit,
            }),
    {
        proof {
            use_type_invariant(&*self);
        }
        let wanted = rung.sell_pct.over(Binary64::hundred());
        let fraction = wanted.over(self.remaining).min_of(Binary64::one());
        self.remaining = self.remaining.minus(wanted).max_of(Binary64::zero());
        if self.remaining.le(Binary64::epsilon()) {
            self.remaining = Binary64::zero();
        }
        StrategyAction::Sell { fraction, reason: SellReason::TakeProfit }
    }

    fn check_trailing_stop(&mut self, price: Binary64) -> (r: Option<StrategyAction>)
        ensures
            ({
                let ready = old(self)@.with_arming();
                let hit = ready.armed && at_most(price@, ready.trailing_price());
                &&& r is Some <==> hit
                &&& r matches Some(a) ==> (final(self)@, a@) == ready.sold_out(
                    SellReason::TrailingStop,
                )
                &&& r is None ==> final(self)@ == ready
            }),
    {
        proof {
            use_type_invariant(&*self);
        }
        let activation_price = self.entry_price.times(self.cfg.trailing_stop_activation);
        if !self.trailing_armed && activation_price.le(self.peak_price) {
            self.trailing_armed = true;
        }
        if !self.trailing_armed {
            return None;
        }
        let trigger = self.peak_price.times(Binary64::one().minus(self.cfg.trailing_stop_drawdown));
        if price.le(trigger) {
            return Some(self.sell_out(SellReason::TrailingStop));
        }
        None
    }

    fn check_max_hold(&mut self, now_secs: u64) -> (r: Option<StrategyAction>)
        ensures
            r is Some <==> old(self)@.held_for(now_secs) >= old(self)@.plan.max_hold,
            r matches Some(a) ==> (final(self)@, a@) == old(self)@.sold_out(SellReason::MaxHold),
            r is None ==> final(self)@ == old(self)@,
    {
        let held: u64 = if now_secs >= self.entry_ts_secs {
            now_secs - self.entry_ts_secs
        } else {
            0
        };
        if held >= self.cfg.max_hold_seconds {
            return Some(self.sell_out(SellReason::MaxHold));
        }
        None
    }
}

// ---- laws ----------------------------------------------------------------

impl Plan {
    /// Every rung sells more than nothing and at most the whole position.
    pub open spec fn shares_ok(self) -> bool {
        forall|i: int|
            0 <= i < self.ladder.len() ==> !at_most(#[trigger] self.ladder[i].sell_pct, nought())
                && !below(hundred(), self.ladder[i].sell_pct)
    }
}

/// A valid configuration's ladder sells sensible shares.
pub proof fn valid_configs_have_sound_plans(cfg: Config)
    requires
        cfg.fault() is None,
    ensures
        plan_of(cfg.strategy).shares_ok(),
{
    valid_configs_are_usable(cfg);
    let plan = plan_of(cfg.strategy);
    assert forall|i: int| 0 <= i < plan.ladder.len() implies !at_most(
        #[trigger] plan.ladder[i].sell_pct,
        nought(),
    ) && !below(hundred(), plan.ladder[i].sell_pct) by {
        assert(share_ok(cfg.strategy.take_profit_ladder@[i]));
    }
}

impl Position {
    /// What holds of a position from its opening on: between nothing and the whole is left,
    /// and the trailing stop is active only once the activation price has been seen.
    pub open spec fn sound(self) -> bool {
        &&& self.wf()
        &&& self.remaining matches Num::Finite { neg, mag } && !neg && mag <= pow2(1074)
            && representable(mag)
        &&& self.armed ==> at_most(self.activation_price(), self.peak)
    }
}

/// A freshly opened position is sound.
pub proof fn open_is_sound(position: Position)
    requires
        position.wf(),
        position.remaining == one(),
        !position.armed,
    ensures
        position.sound(),
        !position.closed(),
{
    lemma_pow2_127();
    assert(scaled(1, 1074) == pow2(1074));
    lemma_pow2_strictly_increases(1022, 1074);
}

/// A closed position answers every tick the same way and does not change.
pub proof fn closed_is_final(position: Position, price: Num, now: u64)
    requires
        position.closed(),
    ensures
        position.tick(price, now) == (position, Action::Closed),
{
}

/// `Closed` is answered by closed positions only.
pub proof fn closed_answer_means_closed(position: Position, price: Num, now: u64)
    ensures
        position.tick(price, now).1 == Action::Closed <==> position.closed(),
{
}

/// Loss protection beats everything: at or below the stop price an open position is sold
/// whole, whatever the ladder, the trailing stop and the clock say.
pub proof fn stop_loss_comes_first(position: Position, price: Num, now: u64)
    requires
        !position.closed(),
        at_most(price, position.stop_price()),
    ensures
        position.tick(price, now).1 == (Action::Sell {
            fraction: position.remaining,
            reason: SellReason::StopLoss,
        }),
        position.tick(price, now).0.closed(),
{
    lemma_nought_closed(position.with_peak(price).sold_out(SellReason::StopLoss).0);
}

/// After loss protection the ladder comes first, then the trailing stop, then the holding
/// limit: each is used only where none before it applies.
pub proof fn exits_have_an_order(position: Position, price: Num, now: u64)
    requires
        !position.closed(),
    ensures
        position.tick(price, now).1 matches Action::Sell { reason, .. } ==> {
            let seen = position.with_peak(price);
            let ready = seen.with_arming();
            let stopped = at_most(price, seen.stop_price());
            let rung = seen.next_rung(price, 0) is Some;
            let trailed = ready.armed && at_most(price, ready.trailing_price());
            &&& reason == SellReason::StopLoss <==> stopped
            &&& reason == SellReason::TakeProfit <==> !stopped && rung
            &&& reason == SellReason::TrailingStop <==> !stopped && !rung && trailed
            &&& reason == SellReason::MaxHold ==> !stopped && !rung && !trailed
        },
{
}

/// Every exit other than a take-profit sells all that is left and closes the position.
pub proof fn exits_close(position: Position, price: Num, now: u64)
    ensures
        position.tick(price, now).1 matches Action::Sell { fraction, reason } ==> (reason
            != SellReason::TakeProfit ==> fraction == position.remaining && position.tick(
            price,
            now,
        ).0.closed()),
{
    lemma_nought_closed(position.tick(price, now).0);
}

proof fn lemma_nought_closed(position: Position)
    ensures
        position.remaining == nought() ==> position.closed(),
{
    lemma_pow2_pos(1022);
}

/// Where a rung is found, it is in the ladder, has not fired, and no earlier rung was reached.
pub proof fn next_rung_is_first(position: Position, price: Num, from: int)
    requires
        0 <= from,
    ensures
        position.next_rung(price, from) matches Some(i) ==> from <= i
            < position.plan.ladder.len() && position.reached(i, price) && forall|k: int|
            from <= k < i ==> !position.reached(k, price),
        position.next_rung(price, from) is None ==> forall|k: int|
            from <= k < position.plan.ladder.len() ==> !position.reached(k, price),
    decreases position.plan.ladder.len() - from,
{
    if from < position.plan.ladder.len() && !position.reached(from, price) {
        next_rung_is_first(position, price, from + 1);
    }
}

/// A rung fires at most once: a take-profit marks one rung that was not marked before, and
/// no tick takes a mark back.
pub proof fn rungs_fire_once(position: Position, price: Num, now: u64)
    requires
        position.wf(),
    ensures
        ({
            let (after, action) = position.tick(price, now);
            &&& after.wf()
            &&& (action matches Action::Sell { reason, .. } && reason == SellReason::TakeProfit)
                ==> exists|i: int|
                #![trigger position.fired[i]]
                0 <= i < position.fired.len() && !position.fired[i] && after.fired
                    == position.fired.update(i, true)
            &&& !(action matches Action::Sell { reason, .. } && reason == SellReason::TakeProfit)
                ==> after.fired == position.fired
        }),
{
    let seen = position.with_peak(price);
    next_rung_is_first(seen, price, 0);
    if let Some(i) = seen.next_rung(price, 0) {
        assert(!position.fired[i]);
    }
}

/// The entry, the opening time and the plan never change.
pub proof fn terms_are_fixed(position: Position, price: Num, now: u64)
    ensures
        position.tick(price, now).0.entry == position.entry,
        position.tick(price, now).0.entry_secs == position.entry_secs,
        position.tick(price, now).0.plan == position.plan,
{
}

/// The peak never falls, and an open position's peak is at least the last price.
pub proof fn peak_never_falls(position: Position, price: Num, now: u64)
    requires
        position.peak != Num::NaN,
    ensures
        at_most(position.peak, position.tick(price, now).0.peak),
        !position.closed() && price != Num::NaN ==> at_most(
            price,
            position.tick(price, now).0.peak,
        ),
{
}

/// A sound position stays sound, and a tick never increases what is left.
pub proof fn ticks_keep_soundness(position: Position, price: Num, now: u64)
    requires
        position.sound(),
        position.plan.shares_ok(),
    ensures
        position.tick(price, now).0.sound(),
        at_most(position.tick(price, now).0.remaining, position.remaining),
{
    let seen = position.with_peak(price);
    let after = position.tick(price, now).0;
    lemma_zero_representable();
    rungs_fire_once(position, price, now);
    next_rung_is_first(seen, price, 0);
    if !position.closed() && !at_most(price, seen.stop_price()) {
        if let Some(i) = seen.next_rung(price, 0) {
            lemma_left_after(seen, i);
        }
    }
}

proof fn lemma_zero_representable()
    ensures
        representable(0),
{
    lemma_pow2_127();
    assert(scaled(0, 0) == 0) by (nonlinear_arith);
}

/// The share a rung wants is a number between zero and one, or not a number.
proof fn lemma_wanted(position: Position, i: int)
    requires
        position.plan.shares_ok(),
        0 <= i < position.plan.ladder.len(),
    ensures
        position.wanted(i) == Num::NaN || (position.wanted(i) matches Num::Finite { neg, mag }
            && !neg && mag <= pow2(1074)),
{
    let share = position.plan.ladder[i].sell_pct;
    lemma_pow2_pos(1074);
    if let Num::Finite { mag, .. } = share {
        let d = 100 * pow2(1074);
        lemma_pow2_127();
        assert(scaled(1, 1074) == pow2(1074));
        assert(mag * pow2(1074) <= pow2(1074) * d) by (nonlinear_arith)
            requires
                mag <= d,
        ;
        lemma_nearest_upper(mag * pow2(1074), d, pow2(1074));
        lemma_pow2_strictly_increases(1074, 2098);
    }
}

proof fn lemma_left_after(position: Position, i: int)
    requires
        position.sound(),
        position.plan.shares_ok(),
        0 <= i < position.plan.ladder.len(),
    ensures
        position.left_after(position.wanted(i)) matches Num::Finite { neg, mag } && !neg
            && representable(mag) && mag <= position.remaining->mag,
{
    lemma_zero_representable();
    lemma_wanted(position, i);
    lemma_pow2_pos(1022);
    let left = position.remaining->mag;
    if let Num::Finite { mag, .. } = position.wanted(i) {
        if left > mag {
            let n = (left - mag) as nat;
            lemma_nearest_upper(n, 1, left);
            lemma_nearest_representable(n, 1);
            lemma_pow2_strictly_increases(1074, 2098);
        }
    }
}

/// The fraction of a sale is at most one, and above zero unless the sale is that of a rung
/// whose share underflows to zero when it is divided by a hundred.
pub proof fn fractions_are_fractions(position: Position, price: Num, now: u64)
    requires
        position.sound(),
        position.plan.shares_ok(),
    ensures
        position.tick(price, now).1 matches Action::Sell { fraction, reason } ==> {
            let rung = position.with_peak(price).next_rung(price, 0)->0;
            let underflows = reason == SellReason::TakeProfit && at_most(
                position.wanted(rung),
                nought(),
            );
            &&& at_most(fraction, one())
            &&& !underflows ==> below(nought(), fraction)
        },
{
    let seen = position.with_peak(price);
    lemma_pow2_pos(1022);
    lemma_pow2_pos(1074);
    next_rung_is_first(seen, price, 0);
    if !position.closed() && !at_most(price, seen.stop_price()) {
        if let Some(i) = seen.next_rung(price, 0) {
            lemma_wanted(seen, i);
            assert(seen.wanted(i) == position.wanted(i));
            if let Num::Finite { mag, .. } = seen.wanted(i) {
                let left = seen.remaining->mag;
                lemma_pow2_127();
                assert(scaled(1, 0) == 1) by (nonlinear_arith)
                    requires
                        pow2(0) == 1,
                ;
                if mag >= 1 {
                    assert(1 * left <= mag * pow2(1074)) by (nonlinear_arith)
                        requires
                            left <= pow2(1074),
                            mag >= 1,
                    ;
                    lemma_nearest_lower(mag * pow2(1074), left, 1);
                }
            }
        }
    }
}

/// The trailing stop sells only after the activation price has been reached, and only at or
/// below its share of the peak.
pub proof fn trailing_stop_needs_activation(position: Position, price: Num, now: u64)
    requires
        position.sound(),
    ensures
        (position.tick(price, now).1 matches Action::Sell { reason, .. } && reason
            == SellReason::TrailingStop) ==> {
            let after = position.tick(price, now).0;
            &&& at_most(after.activation_price(), after.peak)
            &&& at_most(price, after.trailing_price())
        },
{
}

/// Once the holding limit is reached, an open position sells on every tick.
pub proof fn holding_limit_forces_a_sale(position: Position, price: Num, now: u64)
    requires
        !position.closed(),
        position.held_for(now) >= position.plan.max_hold,
    ensures
        position.tick(price, now).1 is Sell,
{
}

/// A position after some price updates.
pub open spec fn after_ticks(position: Position, ticks: Seq<(Num, u64)>) -> Position
    decreases ticks.len(),
{
    if ticks.len() == 0 {
        position
    } else {
        let before = after_ticks(position, ticks.drop_last());
        before.tick(ticks.last().0, ticks.last().1).0
    }
}

/// Whatever prices come in, a position that is sound and follows a valid plan stays sound,
/// keeps its plan, never holds more than before, and stays closed once it is closed.
pub proof fn positions_stay_sound(position: Position, ticks: Seq<(Num, u64)>)
    requires
        position.sound(),
        position.plan.shares_ok(),
    ensures
        after_ticks(position, ticks).sound(),
        after_ticks(position, ticks).plan == position.plan,
        at_most(after_ticks(position, ticks).remaining, position.remaining),
        position.closed() ==> after_ticks(position, ticks) == position,
    decreases ticks.len(),
{
    if ticks.len() > 0 {
        let before = after_ticks(position, ticks.drop_last());
        positions_stay_sound(position, ticks.drop_last());
        ticks_keep_soundness(before, ticks.last().0, ticks.last().1);
    }
}

/// The stop-loss is measured against the entry: an open position sells with that reason exactly
/// when the price is at most the entry times the configured multiplier, and then everything
/// that is left goes.
pub proof fn stop_loss_is_a_share_of_the_entry(position: Position, price: Num, now: u64)
    requires
        !at_most(position.remaining, epsilon()),
    ensures
        ({
            let (after, action) = position.tick(price, now);
            let stopped = action matches Action::Sell { reason, .. } && reason
                == SellReason::StopLoss;
            &&& stopped <==> at_most(price, product(position.entry, position.plan.stop_loss))
            &&& stopped ==> action->fraction == position.remaining && after.remaining
                == nought() && after.fired == position.fired && after.armed == position.armed
        }),
{
}

/// The stop-loss in exact arithmetic, for a positive entry and multiplier. A price that does
/// not exceed their exact product is sold with that reason. A price above some number that the
/// exact product does not exceed is not.
pub proof fn stop_loss_follows_the_exact_product(position: Position, price: nat, v: nat, now: u64)
    requires
        !at_most(position.remaining, epsilon()),
        position.entry matches Num::Finite { neg, mag } && !neg && mag > 0,
        position.plan.stop_loss matches Num::Finite { neg, mag } && !neg && mag > 0,
        representable(price),
        price < pow2(2098),
        representable(v),
    ensures
        ({
            let x = position.entry->Finite_mag;
            let y = position.plan.stop_loss->Finite_mag;
            let action = position.tick(Num::Finite { neg: false, mag: price }, now).1;
            let stopped = action matches Action::Sell { reason, .. } && reason
                == SellReason::StopLoss;
            &&& price * pow2(1074) <= x * y ==> stopped
            &&& x * y <= v * pow2(1074) && v < price ==> !stopped
        }),
{
    let x = position.entry->Finite_mag;
    let y = position.plan.stop_loss->Finite_mag;
    lemma_pow2_pos(1074);
    if price * pow2(1074) <= x * y {
        lemma_nearest_lower(x * y, pow2(1074), price);
    }
    if x * y <= v * pow2(1074) {
        lemma_nearest_upper(x * y, pow2(1074), v);
    }
}

/// A position does not stop out where it was opened: with a multiplier below one, a tick at a
/// normal entry price never sells with reason stop-loss. The smallest normal number and the
/// largest multiplier below one are left out, as their product rounds back to the entry.
pub proof fn entry_price_is_above_the_stop(position: Position, now: u64)
    requires
        position.entry matches Num::Finite { neg, mag } && !neg && representable(mag) && pow2(52)
            <= mag < pow2(2098),
        position.plan.stop_loss matches Num::Finite { neg, mag } && !neg && representable(mag)
            && mag < pow2(1074),
        !(position.entry->Finite_mag == pow2(52) && position.plan.stop_loss->Finite_mag + pow2(1021)
            == pow2(1074)),
    ensures
        !(position.tick(position.entry, now).1 matches Action::Sell { reason, .. } && reason
            == SellReason::StopLoss),
{
    lemma_pow2_127();
    lemma_nearest_shrinks(position.entry->Finite_mag, position.plan.stop_loss->Finite_mag);
}

/// The stop-loss does not depend on the unit of account: multiplying the entry and the price by
/// the same power of two leaves the answer unchanged, as long as the stop price stays a normal
/// number and does not overflow.
pub proof fn stop_loss_scales(position: Position, price: nat, k: nat, now: u64)
    requires
        position.entry matches Num::Finite { neg, mag } && !neg && mag > 0,
        position.plan.stop_loss matches Num::Finite { neg, mag } && !neg && mag > 0,
        ({
            let exact = position.entry->Finite_mag * position.plan.stop_loss->Finite_mag;
            &&& pow2(52) * pow2(1074) <= exact
            &&& nearest(exact, pow2(1074)) * pow2(k) < pow2(2098)
        }),
    ensures
        ({
            let larger_entry = Num::Finite {
                neg: false,
                mag: position.entry->Finite_mag * pow2(k),
            };
            let scaled_up = Position { entry: larger_entry, ..position };
            let here = position.tick(Num::Finite { neg: false, mag: price }, now).1;
            let there = scaled_up.tick(Num::Finite { neg: false, mag: price * pow2(k) }, now).1;
            (here matches Action::Sell { reason, .. } && reason == SellReason::StopLoss) <==> (
            there matches Action::Sell { reason, .. } && reason == SellReason::StopLoss)
        }),
{
    let x = position.entry->Finite_mag;
    let y = position.plan.stop_loss->Finite_mag;
    let c = pow2(k);
    let d = pow2(1074);
    lemma_pow2_pos(k);
    lemma_pow2_pos(1074);
    lemma_nearest_scales(x * y, d, k);
    let r = nearest(x * y, d);
    assert((x * c) * y == (x * y) * c && x * c > 0) by (nonlinear_arith)
        requires
            x > 0,
            c > 0,
    ;
    assert(r <= r * c) by (nonlinear_arith)
        requires
            c > 0,
    ;
    assert(price * c <= r * c <==> price <= r) by (nonlinear_arith)
        requires
            c > 0,
    ;
}

/// A lower price stops out wherever a higher one does.
pub proof fn stop_loss_is_monotone(position: Position, price: Num, lower: Num, now: u64)
    requires
        at_most(lower, price),
        position.tick(price, now).1 matches Action::Sell { reason, .. } && reason
            == SellReason::StopLoss,
    ensures
        position.tick(lower, now).1 matches Action::Sell { reason, .. } && reason
            == SellReason::StopLoss,
{
}

/// A rung of the ladder fires on an open position that is above its stop exactly when it has
/// not fired, its multiple of the entry is at most the price, and no rung before it is in the
/// same case. It is marked, it sells its percentage of the original position as a fraction of
/// the rest, and that percentage leaves the rest, a dust amount counting as nothing.
pub proof fn rungs_are_multiples_of_the_entry(position: Position, price: Num, now: u64)
    requires
        position.wf(),
        !at_most(position.remaining, epsilon()),
        !at_most(price, product(position.entry, position.plan.stop_loss)),
    ensures
        ({
            let (after, action) = position.tick(price, now);
            let due = |i: int|
                0 <= i < position.fired.len() && !position.fired[i] && at_most(
                    product(position.entry, position.plan.ladder[i].multiplier),
                    price,
                );
            let sold = action matches Action::Sell { reason, .. } && reason
                == SellReason::TakeProfit;
            &&& sold <==> exists|i: int| #[trigger] due(i)
            &&& sold ==> exists|i: int|
                {
                    let share = quotient(position.plan.ladder[i].sell_pct, hundred());
                    let rest = difference(position.remaining, share);
                    &&& #[trigger] due(i)
                    &&& forall|k: int| k < i ==> !#[trigger] due(k)
                    &&& after.fired == position.fired.update(i, true)
                    &&& after.armed == position.armed
                    &&& action->fraction == smaller(quotient(share, position.remaining), one())
                    &&& after.remaining == if below(epsilon(), rest) {
                        rest
                    } else {
                        nought()
                    }
                }
        }),
{
    let (after, action) = position.tick(price, now);
    let seen = position.with_peak(price);
    let due = |i: int|
        0 <= i < position.fired.len() && !position.fired[i] && at_most(
            product(position.entry, position.plan.ladder[i].multiplier),
            price,
        );
    next_rung_is_first(seen, price, 0);
    lemma_pow2_pos(1022);
    assert forall|i: int| #[trigger] due(i) <==> (0 <= i < position.fired.len() && seen.reached(
        i,
        price,
    )) by {
        assert(seen.target(i) == product(position.entry, position.plan.ladder[i].multiplier));
    }
    if let Some(i) = seen.next_rung(price, 0) {
        assert(due(i));
        assert(forall|k: int| k < i ==> !#[trigger] due(k));
    }
}

/// A rung that sells the whole position closes it, with a fraction of one, whatever was left.
pub proof fn whole_rungs_close(position: Position, price: Num, now: u64)
    requires
        position.sound(),
        position.tick(price, now).1 matches Action::Sell { reason, .. } && reason
            == SellReason::TakeProfit,
        forall|i: int|
            0 <= i < position.plan.ladder.len() ==> #[trigger] position.plan.ladder[i].sell_pct
                == hundred(),
    ensures
        position.tick(price, now).1->fraction == one(),
        position.tick(price, now).0.remaining == nought(),
{
    let seen = position.with_peak(price);
    next_rung_is_first(seen, price, 0);
    let i = seen.next_rung(price, 0)->0;
    let d = pow2(1074);
    let left = position.remaining->Finite_mag;
    lemma_pow2_127();
    lemma_pow2_pos(1074);
    lemma_pow2_pos(1022);
    lemma_pow2_strictly_increases(1074, 2098);
    assert(scaled(1, 1074) == d);
    assert(d * (100 * d) == (100 * d) * d) by (nonlinear_arith);
    lemma_nearest_upper((100 * d) * d, 100 * d, d);
    lemma_nearest_lower((100 * d) * d, 100 * d, d);
    assert(seen.wanted(i) == one());
    assert(d * left <= d * d) by (nonlinear_arith)
        requires
            left <= d,
    ;
    lemma_nearest_lower(d * d, left, d);
    if left < d {
        let n = (d - left) as nat;
        assert(difference(seen.remaining, one()) == rounded(true, n, 1));
    }
}

/// The trailing stop follows the peak. An open position that neither stops out nor takes
/// profit becomes active once its multiple of the entry has been seen, stays active, and then
/// sells everything exactly when the price has fallen to the peak less the drawdown.
pub proof fn trailing_stop_follows_the_peak(position: Position, price: Num, now: u64)
    requires
        !at_most(position.remaining, epsilon()),
        !(position.tick(price, now).1 matches Action::Sell { reason, .. } && (reason
            == SellReason::StopLoss || reason == SellReason::TakeProfit)),
    ensures
        ({
            let (after, action) = position.tick(price, now);
            let trailed = action matches Action::Sell { reason, .. } && reason
                == SellReason::TrailingStop;
            let kept = difference(one(), position.plan.drawdown);
            &&& after.armed <==> position.armed || at_most(
                product(position.entry, position.plan.activation),
                after.peak,
            )
            &&& trailed <==> after.armed && at_most(price, product(after.peak, kept))
            &&& trailed ==> action->fraction == position.remaining && after.remaining == nought()
            &&& after.fired == position.fired
        }),
{
}

/// The holding limit is the last way out: an open position that no price rule sells is sold
/// whole exactly when at least that many seconds have passed since it was opened, and is held
/// with nothing sold otherwise.
pub proof fn holding_limit_counts_from_the_opening(position: Position, price: Num, now: u64)
    requires
        !at_most(position.remaining, epsilon()),
        !(position.tick(price, now).1 matches Action::Sell { reason, .. } && reason
            != SellReason::MaxHold),
    ensures
        ({
            let (after, action) = position.tick(price, now);
            let expired = now - position.entry_secs >= position.plan.max_hold
                || position.plan.max_hold == 0;
            &&& expired ==> action == (Action::Sell {
                fraction: position.remaining,
                reason: SellReason::MaxHold,
            }) && after.remaining == nought()
            &&& !expired ==> action == Action::Hold && after.remaining == position.remaining
            &&& after.fired == position.fired
        }),
{
}

/// The clock decides nothing but the holding limit: a price that sells for another reason sells
/// alike at any time.
pub proof fn price_rules_ignore_the_clock(position: Position, price: Num, now: u64, later: u64)
    requires
        position.tick(price, now).1 matches Action::Sell { reason, .. } && reason
            != SellReason::MaxHold,
    ensures
        position.tick(price, later) == position.tick(price, now),
{
}

/// The peak of an open position is the larger of the old peak and the price, for every answer.
pub proof fn peak_is_the_highest_price(position: Position, price: Num, now: u64)
    requires
        !at_most(position.remaining, epsilon()),
    ensures
        below(position.peak, price) ==> position.tick(price, now).0.peak == price,
        !below(position.peak, price) ==> position.tick(price, now).0.peak == position.peak,
{
}

/// A plan holds what the settings say, setting by setting and rung by rung.
pub proof fn plans_hold_the_settings(cfg: StrategyConfig)
    ensures
        plan_of(cfg).stop_loss == cfg.stop_loss_multiplier@,
        plan_of(cfg).drawdown == cfg.trailing_stop_drawdown@,
        plan_of(cfg).activation == cfg.trailing_stop_activation@,
        plan_of(cfg).max_hold == cfg.max_hold_seconds,
        plan_of(cfg).ladder.len() == cfg.take_profit_ladder@.len(),
        forall|i: int|
            0 <= i < cfg.take_profit_ladder@.len() ==> (#[trigger] plan_of(
                cfg,
            ).ladder[i]).multiplier == cfg.take_profit_ladder@[i].multiplier@ && plan_of(
                cfg,
            ).ladder[i].sell_pct == cfg.take_profit_ladder@[i].sell_pct@,
{
}

/// An action and its view say the same: the same kind, reason and fraction.
pub proof fn actions_are_seen_as_they_are(action: StrategyAction)
    ensures
        action is Hold <==> action@ is Hold,
        action is Closed <==> action@ is Closed,
        action is Sell <==> action@ is Sell,
        action matches StrategyAction::Sell { fraction, reason } ==> action@->fraction
            == fraction@ && action@->reason == reason,
{
}

/// A position is closed exactly when no more than the gap between one and the next number is
/// left, and then it answers so and stays as it is; with more left it never does.
pub proof fn dust_is_closed(position: Position, price: Num, now: u64)
    ensures
        position.closed() <==> at_most(
            position.remaining,
            Num::Finite { neg: false, mag: pow2(1022) },
        ),
        at_most(position.remaining, Num::Finite { neg: false, mag: pow2(1022) })
            <==> position.tick(price, now).1 is Closed,
        position.tick(price, now).1 is Closed ==> position.tick(price, now).0 == position,
{
}

} // verus!
