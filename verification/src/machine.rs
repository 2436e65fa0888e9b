//! One reroll run as a step machine: given what the last action brought
//! (a screen seen or not, a tap that worked or not), it decides the next
//! action for the device side to perform, and keeps the wanted openings up
//! to date as the run reveals affixes, environments and strategies.

use vstd::prelude::*;
use crate::pages::{
    Button, Page, TextBox, boss_affixes, environment_cards, is_first_box, locate_button, refresh_count,
    strategy_cards, strategy_refresh_buttons, game_mode_state, STATE_IN_PROGRESS,
};
use crate::selection::{OpeningConfig, SelectionManager, SelectionView, views, env_outcome, strategy_outcome};
use crate::text::{strs, str_eq};
use crate::transitions as tr;

verus! {

/// Screens kept as pictures when saving the opening is enabled.
#[derive(Debug, Clone, Copy, PartialEq, Eq)]
pub enum Shot {
    BossDetected,
    EnvironmentBeforeRefresh,
    EnvironmentBeforeConfirm,
    StrategyBeforeRefresh,
    StrategyBeforeConfirm,
}

/// How a run ends.
#[derive(Debug, Clone, Copy, PartialEq, Eq)]
pub enum Finish {
    /// An acceptable opening was reached.
    Success,
    /// Every allowed attempt was used up.
    Exhausted,
}

/// What the device side is asked to do next.
#[derive(Debug, Clone, PartialEq, Eq)]
pub enum Action {
    /// Take a new screenshot; answer `Done`.
    Capture,
    /// Read the current screenshot as page `p`; answer `Seen` or `NotSeen`.
    Observe(Page),
    /// Take screenshots every `poll_ms` until page `page` shows or
    /// `timeout_s` whole seconds pass; answer `Seen` or `TimedOut`.
    WaitFor { page: Page, timeout_s: u64, poll_ms: u64 },
    /// Tap the text box `element` of the `obs`-th page seen in this
    /// attempt, then wait `after_ms`; answer `Tapped`.
    Tap { obs: usize, element: usize, after_ms: u64 },
    /// Tap a little left of each of the text boxes `elements` of the
    /// `obs`-th page seen, waiting `after_ms` after each; answer `Tapped`.
    TapLeftOf { obs: usize, elements: Vec<usize>, after_ms: u64 },
    /// Tap the back arrow in the top left corner, then wait; answer `Tapped`.
    TapCorner { after_ms: u64 },
    /// Drag the hand card `card` onto the field slot of the same number;
    /// answer `Done` or `Failed`.
    DragCard(usize),
    /// Answer the event dialogs that may pop up; answer `Done` or `Failed`.
    HandleSpecialEvents,
    /// Confirm the "not enough units" dialog if it shows; answer `Done` or `Failed`.
    DismissNotEnoughDialog,
    /// Press the back key and, when that worked, wait a second; answer `Done`.
    PressBack,
    /// Wait; answer `Done`.
    Sleep(u64),
    /// Keep a picture of the screen (when enabled); answer `Done`.
    SaveOpening(Shot),
    /// The run is over.
    Finish(Finish),
}

/// The model of an [`Action`]: the same, with the tapped boxes as a sequence.
pub enum ActionView {
    Capture,
    Observe(Page),
    WaitFor { page: Page, timeout_s: u64, poll_ms: u64 },
    Tap { obs: usize, element: usize, after_ms: u64 },
    TapLeftOf { obs: usize, elements: Seq<usize>, after_ms: u64 },
    TapCorner { after_ms: u64 },
    DragCard(usize),
    HandleSpecialEvents,
    DismissNotEnoughDialog,
    PressBack,
    Sleep(u64),
    SaveOpening(Shot),
    Finish(Finish),
}

impl View for Action {
    type V = ActionView;

    open spec fn view(&self) -> ActionView {
        match *self {
            Action::Capture => ActionView::Capture,
            Action::Observe(p) => ActionView::Observe(p),
            Action::WaitFor { page, timeout_s, poll_ms } => ActionView::WaitFor { page, timeout_s, poll_ms },
            Action::Tap { obs, element, after_ms } => ActionView::Tap { obs, element, after_ms },
            Action::TapLeftOf { obs, elements, after_ms } => ActionView::TapLeftOf { obs, elements: elements@, after_ms },
            Action::TapCorner { after_ms } => ActionView::TapCorner { after_ms },
            Action::DragCard(c) => ActionView::DragCard(c),
            Action::HandleSpecialEvents => ActionView::HandleSpecialEvents,
            Action::DismissNotEnoughDialog => ActionView::DismissNotEnoughDialog,
            Action::PressBack => ActionView::PressBack,
            Action::Sleep(ms) => ActionView::Sleep(ms),
            Action::SaveOpening(s) => ActionView::SaveOpening(s),
            Action::Finish(f) => ActionView::Finish(f),
        }
    }
}

/// What the device side reports after an action.
#[derive(Debug, Clone)]
pub enum Event {
    Done,
    Seen(Vec<TextBox>),
    NotSeen,
    TimedOut,
    Tapped(bool),
    Failed,
}

/// How one attempt ended.
#[derive(Debug, Clone, Copy, PartialEq, Eq)]
pub enum Outcome {
    Success,
    Retry,
    Error,
    Failed,
}

#[derive(Debug, Clone, Copy, PartialEq, Eq)]
pub enum Phase {
    Idle,
    Finished,
    Pause,
    CaptureStart,
    SeePrep,
    SeeStart,
    AbortCapture,
    AbortSee,
    AbortTapped,
    AbortSlept,
    TapStart,
    WaitGameMode,
    TapEndSettle,
    TapEnter,
    WaitDifficulty,
    TapStartBattle,
    WaitBoss,
    SaveBoss,
    TapBossNext,
    BossSlept,
    WaitPlane,
    TapPlane,
    EnvWaitPrep,
    EnvWaitEnv,
    EnvEmptySleep,
    EnvRecapture,
    EnvReobserve,
    EnvSaveBeforeRefresh,
    EnvTapRefresh,
    EnvRefreshSleep,
    EnvRefreshCapture,
    EnvWaitRefreshed,
    EnvTapCard,
    EnvSaveBeforeConfirm,
    EnvTapConfirm,
    EnvSettle,
    EnvLoopSleep,
    StratWaitPrep,
    StratExitCorner,
    StratDrag,
    StratDragSleep,
    StratSpecial,
    StratTapBattle,
    StratDialog,
    StratWaitSettle,
    StratTapContinue,
    StratWaitShop,
    StratExitShop,
    StratWaitPrepSecond,
    StratWaitStrategy,
    PickEmptySleep,
    PickRecapture,
    PickReobserve,
    PickSaveRefresh,
    PickTapRefresh,
    PickRefreshSleep,
    PickRefreshCapture,
    PickWaitRefreshed,
    PickTapCard,
    PickSettle,
    PickSaveConfirm,
    PickTapConfirm,
    AfterPickSleep,
    AfterPickCapture,
    AfterPickSeeStrategy,
    AfterPickSeeShop,
    FinalExitShop,
    FinalWaitPrep,
    FinalExitCorner,
    ExitCapture,
    ExitWaitConfirm,
    ExitTapGiveUp,
    ExitSleepConfirm,
    ExitWaitFail,
    ExitTapFail,
    ExitSleepFail,
    ExitWaitStats,
    ExitTapStats,
    ExitSleepStats,
    ExitCaptureReturn,
    ExitWaitReturn,
    ExitTapReturn,
    ExitSleepReturn,
}

/// The rounds of the environment screen allowed in one attempt.
pub const ENV_ROUNDS: u32 = 5;

/// The hand cards placed before the first battle.
pub const CARDS_PLACED: usize = 4;

/// The phases in which `page` names a page seen in this attempt.
pub open spec fn uses_page(p: Phase) -> bool {
    p == Phase::SaveBoss || p == Phase::EnvEmptySleep || p == Phase::EnvRecapture || p == Phase::EnvReobserve
        || p == Phase::EnvSaveBeforeRefresh || p == Phase::EnvTapCard || p == Phase::EnvSaveBeforeConfirm
        || p == Phase::PickEmptySleep || p == Phase::PickRecapture || p == Phase::PickReobserve
        || p == Phase::PickSaveRefresh || p == Phase::PickTapRefresh || p == Phase::PickRefreshSleep
        || p == Phase::PickRefreshCapture || p == Phase::PickWaitRefreshed || p == Phase::PickTapCard
        || p == Phase::PickSettle || p == Phase::PickSaveConfirm
}

/// The phases of the first battle's preparation, in which `prep_page`
/// names the preparation screen seen.
pub open spec fn uses_prep(p: Phase) -> bool {
    p == Phase::StratDrag || p == Phase::StratDragSleep || p == Phase::StratSpecial
}

/// The phases of the environment rounds.
pub open spec fn in_env_round(p: Phase) -> bool {
    p == Phase::EnvWaitPrep || p == Phase::EnvWaitEnv || p == Phase::EnvEmptySleep || p == Phase::EnvRecapture
        || p == Phase::EnvReobserve || p == Phase::EnvSaveBeforeRefresh || p == Phase::EnvTapRefresh
        || p == Phase::EnvRefreshSleep || p == Phase::EnvRefreshCapture || p == Phase::EnvWaitRefreshed
        || p == Phase::EnvTapCard || p == Phase::EnvSaveBeforeConfirm || p == Phase::EnvTapConfirm
        || p == Phase::EnvSettle || p == Phase::EnvLoopSleep
}

/// The tap targets of `a` name text boxes of pages seen in this attempt.
pub open spec fn action_ok(a: Action, seen: Seq<Seq<TextBox>>) -> bool {
    match a {
        Action::Tap { obs, element, .. } => obs < seen.len() && element < seen[obs as int].len(),
        Action::TapLeftOf { obs, elements, .. } => obs < seen.len() && forall|k: int|
            0 <= k < elements@.len() ==> #[trigger] elements@[k] < seen[obs as int].len(),
        _ => true,
    }
}

/// The model of a run: attempts made and allowed, the screen's size, the
/// selection, the pages seen in the current attempt, the phase the run is
/// in, and what the phase works on (the page acted on, the preparation
/// screen, the environment round, the hand card, which strategy choice, the
/// strategy card chosen, how the run ended).
pub struct MachineView {
    pub tries: int,
    pub max_retry: int,
    pub width: i32,
    pub height: i32,
    pub selection: SelectionView,
    pub seen: Seq<Seq<TextBox>>,
    pub phase: Phase,
    pub page: usize,
    pub prep_page: usize,
    pub round: u32,
    pub card: usize,
    pub second: bool,
    pub prep_seen: bool,
    pub pick_idx: i32,
    pub pick_name: Seq<char>,
    pub result: Finish,
}

impl MachineView {
    /// The run is over.
    pub open spec fn finished(self) -> bool {
        self.phase == Phase::Finished
    }
}

/// The decisions of one reroll run.
pub struct RerollMachine {
    selector: SelectionManager,
    max_retry: i32,
    tries: i32,
    width: i32,
    height: i32,
    phase: Phase,
    seen: Vec<Vec<TextBox>>,
    page: usize,
    prep_page: usize,
    round: u32,
    card: usize,
    second: bool,
    prep_seen: bool,
    pick_idx: i32,
    pick_name: String,
    result: Finish,
}

pub open spec fn seen_view(s: Seq<Vec<TextBox>>) -> Seq<Seq<TextBox>> {
    s.map_values(|v: Vec<TextBox>| v@)
}

impl View for RerollMachine {
    type V = MachineView;

    closed spec fn view(&self) -> MachineView {
        MachineView {
            tries: self.tries as int,
            max_retry: self.max_retry as int,
            width: self.width,
            height: self.height,
            selection: self.selector@,
            seen: seen_view(self.seen@),
            phase: self.phase,
            page: self.page,
            prep_page: self.prep_page,
            round: self.round,
            card: self.card,
            second: self.second,
            prep_seen: self.prep_seen,
            pick_idx: self.pick_idx,
            pick_name: self.pick_name@,
            result: self.result,
        }
    }
}

impl RerollMachine {
    /// The machine's own bookkeeping is consistent.
    pub closed spec fn wf(&self) -> bool {
        &&& 0 <= self.tries
        &&& (self.tries <= self.max_retry || self.tries == 0)
        &&& uses_page(self.phase) ==> self.page < self.seen@.len()
        &&& uses_prep(self.phase) ==> self.prep_page < self.seen@.len() && self.card < CARDS_PLACED
        &&& in_env_round(self.phase) ==> 1 <= self.round <= ENV_ROUNDS
        &&& self.phase == Phase::Finished ==> {
            &&& self.result == Finish::Success ==> self.selector@.active.len() > 0
            &&& self.result == Finish::Exhausted ==> self.tries >= self.max_retry
        }
    }

    /// A run over `openings` that allows `max_retry` attempts; `width` and
    /// `height` are the screen's size in pixels.
    pub fn new(openings: Vec<OpeningConfig>, max_retry: i32, prefer_invest_env: Vec<String>, width: i32, height: i32) -> (r: Self)
        ensures
            r.wf(),
            r@.tries == 0,
            r@.max_retry == max_retry,
            r@.selection.openings == views(openings@),
            r@.selection.active == views(openings@),
            r@.selection.prefer_env == strs(prefer_invest_env@),
            r@.seen.len() == 0,
            !r@.finished(),
            r@.phase == Phase::Idle,
            r@.width == width,
            r@.height == height,
            r@.selection.current_env == Seq::<char>::empty(),
            r@.selection.current_strategy == Seq::<char>::empty(),
            r@.selection.current_affixes == Seq::<Seq<char>>::empty(),
            r@.page == 0,
            r@.prep_page == 0,
            r@.round == 1,
            r@.card == 0,
            !r@.second,
            !r@.prep_seen,
            r@.pick_idx == -1,
            r@.pick_name == Seq::<char>::empty(),
            r@.result == Finish::Exhausted,
    {
        RerollMachine {
            selector: SelectionManager::new(openings, prefer_invest_env),
            max_retry,
            tries: 0,
            width,
            height,
            phase: Phase::Idle,
            seen: Vec::new(),
            page: 0,
            prep_page: 0,
            round: 1,
            card: 0,
            second: false,
            prep_seen: false,
            pick_idx: -1,
            pick_name: String::new(),
            result: Finish::Exhausted,
        }
    }

    /// The attempts made so far.
    pub fn tries(&self) -> (n: i32)
        ensures
            n == self@.tries,
    {
        self.tries
    }

    /// The openings still possible in this attempt.
    pub fn active_count(&self) -> (n: usize)
        ensures
            n == self@.selection.active.len(),
    {
        self.selector.get_active_count()
    }

    fn go(&mut self, phase: Phase, a: Action) -> (r: Action)
        ensures
            (final(self)@, r@) == tr::go(old(self)@, phase, a@),
            final(self).phase == phase,
            r == a,
            final(self).selector == old(self).selector,
            final(self).seen == old(self).seen,
            final(self).tries == old(self).tries,
            final(self).max_retry == old(self).max_retry,
            final(self).page == old(self).page,
            final(self).prep_page == old(self).prep_page,
            final(self).round == old(self).round,
            final(self).card == old(self).card,
            final(self).result == old(self).result,
    {
        self.phase = phase;
        a
    }

    /// Keeps a page just seen; returns its number in this attempt.
    fn record(&mut self, elems: Vec<TextBox>) -> (id: usize)
        ensures
            final(self)@ == (MachineView { seen: old(self)@.seen.push(elems@), ..old(self)@ }),
            final(self).seen@ == old(self).seen@.push(elems),
            id == old(self).seen@.len(),
            final(self).selector == old(self).selector,
            final(self).phase == old(self).phase,
            final(self).tries == old(self).tries,
            final(self).max_retry == old(self).max_retry,
            final(self).page == old(self).page,
            final(self).prep_page == old(self).prep_page,
            final(self).round == old(self).round,
            final(self).card == old(self).card,
            final(self).result == old(self).result,
    {
        let id = self.seen.len();
        let ghost before = self.seen@;
        let ghost e = elems;
        self.seen.push(elems);
        proof {
            Self::lemma_seen_push(before, e);
        }
        id
    }
}


/// What every step keeps: taps name boxes of pages seen, the configuration
/// and the allowed attempts never change, an attempt starts from every
/// configured opening with nothing seen, success is declared only while a
/// wanted opening remains, the run stops only on success or when every
/// attempt is used up, and a finished run stays finished.
pub open spec fn transition_ok(old: MachineView, new: MachineView, a: Action) -> bool {
    &&& action_ok(a, new.seen)
    &&& new.max_retry == old.max_retry
    &&& new.selection.openings == old.selection.openings
    &&& new.selection.prefer_env == old.selection.prefer_env
    &&& new.tries == old.tries || new.tries == old.tries + 1
    &&& new.tries == old.tries + 1 ==> {
        &&& new.selection.active == new.selection.openings
        &&& new.selection.current_env == Seq::<char>::empty()
        &&& new.selection.current_strategy == Seq::<char>::empty()
        &&& new.selection.current_affixes == Seq::<Seq<char>>::empty()
        &&& new.seen.len() == 0
        &&& a is Capture
    }
    &&& (a is Finish) == new.finished()
    &&& a matches Action::Finish(Finish::Success) ==> new.selection.active.len() > 0
    &&& a matches Action::Finish(Finish::Exhausted) ==> new.tries >= new.max_retry
    &&& old.finished() ==> new == old
}

/// The list seen as page `obs` (empty for a number not yet given).
pub open spec fn page_of(seen: Seq<Seq<TextBox>>, obs: int) -> Seq<TextBox> {
    if 0 <= obs < seen.len() {
        seen[obs]
    } else {
        Seq::empty()
    }
}

impl RerollMachine {
    proof fn lemma_seen_push(s: Seq<Vec<TextBox>>, e: Vec<TextBox>)
        ensures
            seen_view(s.push(e)) == seen_view(s).push(e@),
    {
        assert(seen_view(s.push(e)) =~= seen_view(s).push(e@));
    }

    /// The attempt ends with `o`: success finishes the run, a retry starts
    /// the next attempt at once, an error pauses two seconds first.
    fn end(&mut self, o: Outcome) -> (a: Action)
        requires
            old(self).wf(),
            old(self).phase != Phase::Finished,
            o == Outcome::Success ==> old(self).selector@.active.len() > 0,
        ensures
            (final(self)@, a@) == tr::end(old(self)@, o),
            final(self).wf(),
            transition_ok(old(self)@, final(self)@, a),
    {
        match o {
            Outcome::Success => {
                self.result = Finish::Success;
                self.go(Phase::Finished, Action::Finish(Finish::Success))
            },
            Outcome::Retry => self.next_attempt(),
            _ => self.go(Phase::Pause, Action::Sleep(2000)),
        }
    }

    /// Starts the next attempt, or finishes the run when none is left.
    fn next_attempt(&mut self) -> (a: Action)
        requires
            old(self).wf(),
            old(self).phase != Phase::Finished,
        ensures
            (final(self)@, a@) == tr::next_attempt(old(self)@),
            final(self).wf(),
            transition_ok(old(self)@, final(self)@, a),
    {
        if self.tries < self.max_retry {
            self.tries = self.tries + 1;
            self.selector.reset();
            self.seen = Vec::new();
            assert(seen_view(self.seen@) =~= Seq::<Seq<TextBox>>::empty());
            self.go(Phase::CaptureStart, Action::Capture)
        } else {
            self.result = Finish::Exhausted;
            self.go(Phase::Finished, Action::Finish(Finish::Exhausted))
        }
    }

    /// Taps the button `b` on page `obs`, if it is there.
    fn tap_button(&mut self, obs: usize, b: Button, after_ms: u64, next: Phase) -> (a: Option<Action>)
        requires
            old(self).wf(),
            obs < old(self).seen@.len(),
            old(self).phase != Phase::Finished,
            next != Phase::Finished,
            !uses_page(next) || old(self).page < old(self).seen@.len(),
            !uses_prep(next) || (old(self).prep_page < old(self).seen@.len() && old(self).card < CARDS_PLACED),
            !in_env_round(next) || 1 <= old(self).round <= ENV_ROUNDS,
        ensures
            a is Some ==> final(self).wf() && transition_ok(old(self)@, final(self)@, a->0) && final(self).phase == next,
            a is None ==> *final(self) == *old(self),
            tr::tap_button(old(self)@, obs, b, after_ms, next) == match a {
                Some(x) => Some((final(self)@, x@)),
                None => None::<(MachineView, ActionView)>,
            },
    {
        let found = locate_button(b, self.seen[obs].as_slice(), self.width, self.height);
        match found {
            Some(i) => Some(self.go(next, Action::Tap { obs, element: i, after_ms })),
            None => None,
        }
    }
}


/// The names of the cards `cards` of a page.
fn card_names(elems: &Vec<TextBox>, cards: &Vec<usize>) -> (r: Vec<String>)
    requires
        forall|k: int| 0 <= k < cards@.len() ==> #[trigger] cards@[k] < elems@.len(),
    ensures
        r@.len() == cards@.len(),
        forall|k: int| 0 <= k < cards@.len() ==> #[trigger] r@[k]@ == elems@[cards@[k] as int].text@,
        strs(r@) == tr::card_texts(elems@, cards@),
{
    let mut r: Vec<String> = Vec::new();
    let mut k: usize = 0;
    while k < cards.len()
        invariant
            k <= cards@.len(),
            forall|m: int| 0 <= m < cards@.len() ==> #[trigger] cards@[m] < elems@.len(),
            r@.len() == k,
            forall|m: int| 0 <= m < k ==> #[trigger] r@[m]@ == elems@[cards@[m] as int].text@,
        decreases cards@.len() - k,
    {
        r.push(elems[cards[k]].text.clone());
        k = k + 1;
    }
    assert(strs(r@) =~= tr::card_texts(elems@, cards@));
    r
}

impl RerollMachine {
    /// Leaves the game in progress: give up and settle, then step through
    /// the result pages back to the event screen; the attempt is retried.
    fn exit_game(&mut self) -> (a: Action)
        requires
            old(self).wf(),
            old(self).phase != Phase::Finished,
        ensures
            (final(self)@, a@) == tr::exit_game(old(self)@),
            final(self).wf(),
            transition_ok(old(self)@, final(self)@, a),
    {
        self.go(Phase::ExitCapture, Action::Capture)
    }

    fn wait(&mut self, next: Phase, page: Page, timeout_s: u64, poll_ms: u64) -> (a: Action)
        requires
            old(self).wf(),
            old(self).phase != Phase::Finished,
            next != Phase::Finished,
            !uses_page(next) || old(self).page < old(self).seen@.len(),
            !uses_prep(next) || (old(self).prep_page < old(self).seen@.len() && old(self).card < CARDS_PLACED),
            !in_env_round(next) || 1 <= old(self).round <= ENV_ROUNDS,
        ensures
            (final(self)@, a@) == tr::wait(old(self)@, next, page, timeout_s, poll_ms),
            final(self).wf(),
            transition_ok(old(self)@, final(self)@, a),
    {
        self.go(next, Action::WaitFor { page, timeout_s, poll_ms })
    }

    /// Taps the environment card `idx` of page `p` (when it has one), then
    /// saves the screen and confirms.
    fn confirm_env(&mut self, p: usize, idx: i32) -> (a: Action)
        requires
            old(self).wf(),
            old(self).phase != Phase::Finished,
            p < old(self).seen@.len(),
            1 <= old(self).round <= ENV_ROUNDS,
        ensures
            (final(self)@, a@) == tr::confirm_env(old(self)@, p, idx),
            final(self).wf(),
            transition_ok(old(self)@, final(self)@, a),
    {
        let cards = environment_cards(self.seen[p].as_slice(), self.height);
        assert(self@.seen[p as int] == self.seen@[p as int]@);
        self.page = p;
        if idx >= 0 && (idx as usize) < cards.len() {
            let i = idx as usize;
            assert(cards@.contains(cards@[i as int]));
            self.go(Phase::EnvTapCard, Action::Tap { obs: p, element: cards[i], after_ms: 1000 })
        } else {
            self.go(Phase::EnvSaveBeforeConfirm, Action::SaveOpening(Shot::EnvironmentBeforeConfirm))
        }
    }

    /// Chooses among the environment names offered on page `handled`; the
    /// ghost result is the card a draw took, where one was needed.
    fn env_decide(&mut self, handled: usize, names: Vec<String>) -> (r: (Action, Ghost<int>))
        requires
            old(self).wf(),
            old(self).phase != Phase::Finished,
            handled < old(self).seen@.len(),
            1 <= old(self).round <= ENV_ROUNDS,
        ensures
            (final(self)@, r.0@) == tr::env_decide(old(self)@, handled, strs(names@), r.1@),
            final(self).wf(),
            transition_ok(old(self)@, final(self)@, r.0),
    {
        let ghost m0 = self@;
        let ghost nm = strs(names@);
        let c = self.selector.select_env(names.as_slice(), true, false);
        let ghost pk = choose|pick: int|
            (names@.len() == 0 || 0 <= pick < names@.len()) && env_outcome(
                m0.selection,
                nm,
                true,
                false,
                pick,
                c,
                self.selector@,
            );
        proof {
            if names@.len() > 0 {
                vstd::arithmetic::div_mod::lemma_small_mod(pk as nat, names@.len() as nat);
            }
            assert(tr::drawn(pk, nm.len() as int) == pk || nm.len() == 0);
        }
        let idx = c.0;
        let a = if str_eq(c.2.as_str(), "random") && self.selector.has_wanted_envs() {
            self.page = handled;
            self.go(Phase::EnvSaveBeforeRefresh, Action::SaveOpening(Shot::EnvironmentBeforeRefresh))
        } else if idx == -1 {
            self.end(Outcome::Retry)
        } else {
            self.selector.filter_by_env(c.1.as_str());
            self.confirm_env(handled, idx)
        };
        (a, Ghost(pk))
    }

    /// Taps the chosen strategy card of the current page (when it has it),
    /// then waits, saves the screen and confirms; no choice is an error.
    fn pick_finish(&mut self) -> (a: Action)
        requires
            old(self).wf(),
            old(self).phase != Phase::Finished,
            old(self).page < old(self).seen@.len(),
        ensures
            (final(self)@, a@) == tr::pick_finish(old(self)@),
            final(self).wf(),
            transition_ok(old(self)@, final(self)@, a),
    {
        if self.pick_idx == -1 {
            return self.end(Outcome::Error);
        }
        let name = self.pick_name.clone();
        self.selector.filter_by_strategy(name.as_str());
        let p = self.page;
        let cards = strategy_cards(self.seen[p].as_slice(), self.height);
        assert(self@.seen[p as int] == self.seen@[p as int]@);
        let idx = self.pick_idx;
        if idx >= 0 && (idx as usize) < cards.len() {
            let i = idx as usize;
            assert(cards@.contains(cards@[i as int]));
            self.go(Phase::PickTapCard, Action::Tap { obs: p, element: cards[i], after_ms: 1000 })
        } else {
            self.go(Phase::PickSettle, Action::Sleep(3500))
        }
    }

    /// Refreshes the strategy cards while refreshes are left; otherwise
    /// takes the card chosen.
    fn refresh_or_finish(&mut self) -> (a: Action)
        requires
            old(self).wf(),
            old(self).phase != Phase::Finished,
            old(self).page < old(self).seen@.len(),
        ensures
            (final(self)@, a@) == tr::refresh_or_finish(old(self)@),
            final(self).wf(),
            transition_ok(old(self)@, final(self)@, a),
    {
        let rc = refresh_count(self.seen[self.page].as_slice());
        assert(self@.seen[self.page as int] == self.seen@[self.page as int]@);
        if rc <= 0 {
            self.pick_finish()
        } else {
            self.go(Phase::PickSaveRefresh, Action::SaveOpening(Shot::StrategyBeforeRefresh))
        }
    }

    /// Chooses among the strategy names offered; `cur` is the page acted
    /// on; the ghost result is the card a draw took, where one was needed.
    fn pick_decide(&mut self, cur: usize, names: Vec<String>) -> (r: (Action, Ghost<int>))
        requires
            old(self).wf(),
            old(self).phase != Phase::Finished,
            cur < old(self).seen@.len(),
        ensures
            (final(self)@, r.0@) == tr::pick_decide(old(self)@, cur, strs(names@), r.1@),
            final(self).wf(),
            transition_ok(old(self)@, final(self)@, r.0),
    {
        let ghost m0 = self@;
        let ghost nm = strs(names@);
        let c = self.selector.select_strategy(names.as_slice(), false);
        let ghost pk = choose|pick: int|
            (names@.len() == 0 || 0 <= pick < names@.len()) && strategy_outcome(
                m0.selection,
                nm,
                false,
                pick,
                c,
                self.selector@,
            );
        proof {
            if names@.len() > 0 {
                vstd::arithmetic::div_mod::lemma_small_mod(pk as nat, names@.len() as nat);
            }
            assert(tr::drawn(pk, nm.len() as int) == pk || nm.len() == 0);
        }
        let (idx, name, reason) = c;
        self.pick_idx = idx;
        self.pick_name = name;
        self.page = cur;
        let a = if str_eq(reason.as_str(), "random") && self.selector.has_wanted_strategies() {
            self.refresh_or_finish()
        } else {
            self.pick_finish()
        };
        (a, Ghost(pk))
    }

    /// Handles the strategy page `h`; the ghost result is the card a draw
    /// took, where one was needed.
    fn do_select(&mut self, h: usize) -> (r: (Action, Ghost<int>))
        requires
            old(self).wf(),
            old(self).phase != Phase::Finished,
            h < old(self).seen@.len(),
        ensures
            (final(self)@, r.0@) == tr::do_select(old(self)@, h, r.1@),
            final(self).wf(),
            transition_ok(old(self)@, final(self)@, r.0),
    {
        let cards = strategy_cards(self.seen[h].as_slice(), self.height);
        assert(self@.seen[h as int] == self.seen@[h as int]@);
        if cards.len() == 0 {
            self.page = h;
            (self.go(Phase::PickEmptySleep, Action::Sleep(1000)), Ghost(0))
        } else {
            proof {
                assert forall|k: int| 0 <= k < cards@.len() implies #[trigger] cards@[k] < self.seen@[h as int]@.len() by {
                    assert(cards@.contains(cards@[k]));
                }
            }
            let names = card_names(&self.seen[h], &cards);
            self.pick_decide(h, names)
        }
    }

    /// Presses the battle button of page `p`; `second` tells the battles apart.
    fn battle(&mut self, p: usize, second: bool) -> (a: Action)
        requires
            old(self).wf(),
            old(self).phase != Phase::Finished,
            p < old(self).seen@.len(),
        ensures
            (final(self)@, a@) == tr::battle(old(self)@, p, second),
            final(self).wf(),
            transition_ok(old(self)@, final(self)@, a),
    {
        self.second = second;
        match self.tap_button(p, Button::Battle, 2000, Phase::StratTapBattle) {
            Some(a) => a,
            None => self.end(Outcome::Error),
        }
    }

    /// After a battle's result: the first leads to the shop, the second to
    /// the strategy choice.
    fn after_continue(&mut self) -> (a: Action)
        requires
            old(self).wf(),
            old(self).phase != Phase::Finished,
        ensures
            (final(self)@, a@) == tr::after_continue(old(self)@),
            final(self).wf(),
            transition_ok(old(self)@, final(self)@, a),
    {
        if !self.second {
            self.wait(Phase::StratWaitShop, Page::Shop, 10, 500)
        } else {
            self.wait(Phase::StratWaitStrategy, Page::InvestStrategy, 30, 500)
        }
    }
}


impl RerollMachine {
    /// Takes what the last action brought and returns the next action.
    pub fn step(&mut self, event: Event) -> (a: Action)
        requires
            old(self).wf(),
        ensures
            final(self).wf(),
            transition_ok(old(self)@, final(self)@, a),
            final(self)@.tries <= final(self)@.max_retry || final(self)@.tries == 0,
            exists|pick: int| (final(self)@, a@) == #[trigger] tr::next(old(self)@, event, pick),
    {
        let ghost ev = event;
        let tapped = matches!(event, Event::Tapped(true));
        let failed = matches!(event, Event::Failed);
        assert(tapped == (ev == Event::Tapped(true)));
        if matches!(self.phase, Phase::Finished) {
            let a = Action::Finish(self.result);
            assert((self@, a@) == tr::next(old(self)@, ev, 0));
            return a;
        }
        let seen_id: Option<usize> = match event {
            Event::Seen(e) => {
                let id = self.record(e);
                Some(id)
            },
            _ => None,
        };
        let (a, pick) = self.step_early(seen_id, tapped, failed);
        assert((self@, a@) == tr::next(old(self)@, ev, pick@));
        a
    }

    /// From the start of an attempt to the end of the environment rounds.
    fn step_early(&mut self, seen_id: Option<usize>, tapped: bool, failed: bool) -> (r: (Action, Ghost<int>))
        requires
            old(self).wf(),
            old(self).phase != Phase::Finished,
            seen_id matches Some(id) ==> id < old(self).seen@.len(),
        ensures
            (final(self)@, r.0@) == tr::early(old(self)@, seen_id, tapped, failed, r.1@),
            final(self).wf(),
            transition_ok(old(self)@, final(self)@, r.0),
    {
        let ghost mut pk: int = 0;
        let a = match self.phase {
            Phase::Finished => Action::Finish(self.result),
            Phase::Idle | Phase::Pause => self.next_attempt(),
            Phase::CaptureStart => self.go(Phase::SeePrep, Action::Observe(Page::Preparation)),
            Phase::SeePrep => {
                self.prep_seen = seen_id.is_some();
                self.go(Phase::SeeStart, Action::Observe(Page::Start))
            },
            Phase::SeeStart => {
                if self.prep_seen {
                    self.go(Phase::AbortCapture, Action::Capture)
                } else {
                    match seen_id {
                        Some(id) => {
                            match self.tap_button(id, Button::StartRun, 2000, Phase::TapStart) {
                                Some(a) => a,
                                None => self.end(Outcome::Error),
                            }
                        },
                        _ => self.end(Outcome::Error),
                    }
                }
            },
            Phase::AbortCapture => self.go(Phase::AbortSee, Action::Observe(Page::Preparation)),
            Phase::AbortSee => {
                if seen_id.is_some() {
                    self.go(Phase::AbortTapped, Action::TapCorner { after_ms: 1000 })
                } else {
                    self.end(Outcome::Retry)
                }
            },
            Phase::AbortTapped => self.go(Phase::AbortSlept, Action::Sleep(1000)),
            Phase::AbortSlept => self.exit_game(),
            Phase::TapStart => {
                if tapped {
                    self.wait(Phase::WaitGameMode, Page::GameMode, 10, 1500)
                } else {
                    self.end(Outcome::Error)
                }
            },
            Phase::WaitGameMode => match seen_id {
                Some(id) => {
                    let st = game_mode_state(self.seen[id].as_slice());
                    let found = if st == Some(STATE_IN_PROGRESS) {
                        self.tap_button(id, Button::EndAndSettle, 2000, Phase::TapEndSettle)
                    } else {
                        self.tap_button(id, Button::EnterStandard, 2000, Phase::TapEnter)
                    };
                    match found {
                        Some(a) => a,
                        None => self.end(Outcome::Error),
                    }
                },
                _ => self.end(Outcome::Failed),
            },
            Phase::TapEndSettle => {
                if tapped {
                    self.exit_game()
                } else {
                    self.end(Outcome::Error)
                }
            },
            Phase::TapEnter => {
                if tapped {
                    self.wait(Phase::WaitDifficulty, Page::Difficulty, 10, 1500)
                } else {
                    self.end(Outcome::Error)
                }
            },
            Phase::WaitDifficulty => match seen_id {
                Some(id) => {
                    match self.tap_button(id, Button::StartBattle, 2000, Phase::TapStartBattle) {
                        Some(a) => a,
                        None => self.end(Outcome::Error),
                    }
                },
                _ => self.end(Outcome::Failed),
            },
            Phase::TapStartBattle => {
                if tapped {
                    self.wait(Phase::WaitBoss, Page::BossAffix, 10, 1500)
                } else {
                    self.end(Outcome::Error)
                }
            },
            Phase::WaitBoss => match seen_id {
                Some(id) => {
                    self.page = id;
                    self.go(Phase::SaveBoss, Action::SaveOpening(Shot::BossDetected))
                },
                _ => self.end(Outcome::Failed),
            },
            Phase::SaveBoss => {
                let p = self.page;
                let affixes = boss_affixes(self.seen[p].as_slice(), self.width, self.height);
                self.selector.filter_by_affix(affixes.as_slice());
                match self.tap_button(p, Button::NextStep, 2000, Phase::TapBossNext) {
                    Some(a) => a,
                    None => self.end(Outcome::Error),
                }
            },
            Phase::TapBossNext => {
                if tapped {
                    self.go(Phase::BossSlept, Action::Sleep(3000))
                } else {
                    self.end(Outcome::Error)
                }
            },
            Phase::BossSlept => self.wait(Phase::WaitPlane, Page::PlaneSelect, 10, 1500),
            Phase::WaitPlane => match seen_id {
                Some(id) => {
                    match self.tap_button(id, Button::BlankContinue, 2000, Phase::TapPlane) {
                        Some(a) => a,
                        None => self.end(Outcome::Error),
                    }
                },
                _ => self.end(Outcome::Failed),
            },
            Phase::TapPlane => {
                if tapped {
                    self.round = 1;
                    self.wait(Phase::EnvWaitPrep, Page::Preparation, 10, 500)
                } else {
                    self.end(Outcome::Error)
                }
            },
            Phase::EnvWaitPrep => {
                if seen_id.is_some() {
                    self.wait(Phase::StratWaitPrep, Page::Preparation, 15, 500)
                } else {
                    self.wait(Phase::EnvWaitEnv, Page::InvestEnvironment, 10, 500)
                }
            },
            Phase::EnvWaitEnv => match seen_id {
                Some(id) => {
                    let (a, g) = self.env_page(id);
                    proof {
                        pk = g@;
                    }
                    a
                },
                _ => self.end(Outcome::Retry),
            },
            Phase::EnvEmptySleep => self.go(Phase::EnvRecapture, Action::Capture),
            Phase::EnvRecapture => self.go(Phase::EnvReobserve, Action::Observe(Page::InvestEnvironment)),
            Phase::EnvReobserve => {
                let handled = self.page;
                let (a, g) = match seen_id {
                    Some(id) => {
                        let names = self.env_names(id);
                        self.env_decide(handled, names)
                    },
                    _ => self.env_decide(handled, Vec::new()),
                };
                proof {
                    pk = g@;
                    assert(strs(Seq::<String>::empty()) =~= Seq::<Seq<char>>::empty());
                }
                a
            },
            Phase::EnvSaveBeforeRefresh => {
                let p = self.page;
                match locate_button(Button::RemainingRefreshes, self.seen[p].as_slice(), self.width, self.height) {
                    Some(i) => {
                        let mut v: Vec<usize> = Vec::new();
                        v.push(i);
                        self.go(Phase::EnvTapRefresh, Action::TapLeftOf { obs: p, elements: v, after_ms: 1500 })
                    },
                    None => self.go(Phase::EnvRefreshSleep, Action::Sleep(2000)),
                }
            },
            Phase::EnvTapRefresh => self.go(Phase::EnvRefreshSleep, Action::Sleep(2000)),
            Phase::EnvRefreshSleep => self.go(Phase::EnvRefreshCapture, Action::Capture),
            Phase::EnvRefreshCapture => self.wait(Phase::EnvWaitRefreshed, Page::InvestEnvironment, 10, 500),
            Phase::EnvWaitRefreshed => match seen_id {
                Some(id) => {
                    let (a, g) = self.env_refreshed(id);
                    proof {
                        pk = g@;
                    }
                    a
                },
                _ => self.end(Outcome::Failed),
            },
            Phase::EnvTapCard => self.go(
                Phase::EnvSaveBeforeConfirm,
                Action::SaveOpening(Shot::EnvironmentBeforeConfirm),
            ),
            Phase::EnvSaveBeforeConfirm => {
                let p = self.page;
                match self.tap_button(p, Button::Confirm, 1000, Phase::EnvTapConfirm) {
                    Some(a) => a,
                    None => self.go(Phase::EnvSettle, Action::Sleep(2000)),
                }
            },
            Phase::EnvTapConfirm => self.go(Phase::EnvSettle, Action::Sleep(2000)),
            Phase::EnvSettle => self.go(Phase::EnvLoopSleep, Action::Sleep(2000)),
            Phase::EnvLoopSleep => {
                if self.round < ENV_ROUNDS {
                    self.round = self.round + 1;
                    self.wait(Phase::EnvWaitPrep, Page::Preparation, 10, 500)
                } else {
                    self.end(Outcome::Retry)
                }
            },
            _ => {
                let (a, g) = self.step_strategy(seen_id, tapped, failed);
                proof {
                    pk = g@;
                }
                a
            },
        };
        (a, Ghost(pk))
    }

    /// Names of the environment cards on page `id`.
    fn env_names(&self, id: usize) -> (r: Vec<String>)
        requires
            id < self.seen@.len(),
        ensures
            strs(r@) == tr::env_names_of(self@, id),
    {
        assert(self@.seen[id as int] == self.seen@[id as int]@);
        let cards = environment_cards(self.seen[id].as_slice(), self.height);
        proof {
            assert forall|k: int| 0 <= k < cards@.len() implies #[trigger] cards@[k] < self.seen@[id as int]@.len() by {
                assert(cards@.contains(cards@[k]));
            }
        }
        card_names(&self.seen[id], &cards)
    }

    /// Handles the environment page `id`: with no card on it, waits and
    /// reads the screen again.
    fn env_page(&mut self, id: usize) -> (r: (Action, Ghost<int>))
        requires
            old(self).wf(),
            old(self).phase != Phase::Finished,
            id < old(self).seen@.len(),
            1 <= old(self).round <= ENV_ROUNDS,
        ensures
            (final(self)@, r.0@) == tr::env_page(old(self)@, id, r.1@),
            final(self).wf(),
            transition_ok(old(self)@, final(self)@, r.0),
    {
        let names = self.env_names(id);
        if names.len() == 0 {
            self.page = id;
            (self.go(Phase::EnvEmptySleep, Action::Sleep(1000)), Ghost(0))
        } else {
            self.env_decide(id, names)
        }
    }

    /// Handles the environment page `id` read again after a refresh.
    fn env_refreshed(&mut self, id: usize) -> (r: (Action, Ghost<int>))
        requires
            old(self).wf(),
            old(self).phase != Phase::Finished,
            id < old(self).seen@.len(),
            1 <= old(self).round <= ENV_ROUNDS,
        ensures
            (final(self)@, r.0@) == tr::env_refreshed(old(self)@, id, r.1@),
            final(self).wf(),
            transition_ok(old(self)@, final(self)@, r.0),
    {
        let ghost m0 = self@;
        let names = self.env_names(id);
        let ghost nm = strs(names@);
        let c = self.selector.select_env(names.as_slice(), true, false);
        let ghost pk = choose|pick: int|
            (names@.len() == 0 || 0 <= pick < names@.len()) && env_outcome(
                m0.selection,
                nm,
                true,
                false,
                pick,
                c,
                self.selector@,
            );
        proof {
            if names@.len() > 0 {
                vstd::arithmetic::div_mod::lemma_small_mod(pk as nat, names@.len() as nat);
            }
            assert(tr::drawn(pk, nm.len() as int) == pk || nm.len() == 0);
        }
        let index = c.0;
        let a = if index == -1 {
            self.end(Outcome::Retry)
        } else {
            self.selector.filter_by_env(c.1.as_str());
            self.confirm_env(id, index)
        };
        (a, Ghost(pk))
    }
}


impl RerollMachine {
    /// The steps from the first preparation screen to the end of an attempt,
    /// and the way out of a game in progress.
    fn step_strategy(&mut self, seen_id: Option<usize>, tapped: bool, failed: bool) -> (r: (Action, Ghost<int>))
        requires
            old(self).wf(),
            old(self).phase != Phase::Finished,
            seen_id matches Some(id) ==> id < old(self).seen@.len(),
        ensures
            (final(self)@, r.0@) == tr::strategy_steps(old(self)@, seen_id, tapped, failed, r.1@),
            final(self).wf(),
            transition_ok(old(self)@, final(self)@, r.0),
    {
        let ghost mut pk: int = 0;
        let a = match self.phase {
            Phase::StratWaitPrep => match seen_id {
                Some(id) => {
                    if !self.selector.has_active_openings() {
                        self.go(Phase::StratExitCorner, Action::TapCorner { after_ms: 1000 })
                    } else {
                        self.prep_page = id;
                        self.card = 0;
                        self.go(Phase::StratDrag, Action::DragCard(0))
                    }
                },
                _ => self.end(Outcome::Failed),
            },
            Phase::StratExitCorner => self.exit_game(),
            Phase::StratDrag => {
                if failed {
                    self.end(Outcome::Failed)
                } else {
                    self.go(Phase::StratDragSleep, Action::Sleep(500))
                }
            },
            Phase::StratDragSleep => self.go(Phase::StratSpecial, Action::HandleSpecialEvents),
            Phase::StratSpecial => {
                if failed {
                    self.end(Outcome::Failed)
                } else if self.card + 1 < CARDS_PLACED {
                    self.card = self.card + 1;
                    let c = self.card;
                    self.go(Phase::StratDrag, Action::DragCard(c))
                } else {
                    let p = self.prep_page;
                    self.battle(p, false)
                }
            },
            Phase::StratTapBattle => {
                if tapped {
                    self.go(Phase::StratDialog, Action::DismissNotEnoughDialog)
                } else {
                    self.end(Outcome::Error)
                }
            },
            Phase::StratDialog => {
                if failed {
                    self.end(Outcome::Failed)
                } else {
                    self.wait(Phase::StratWaitSettle, Page::BattleSettlement, 600, 2000)
                }
            },
            Phase::StratWaitSettle => match seen_id {
                Some(id) => {
                    match self.tap_button(id, Button::ContinueChallenge, 2000, Phase::StratTapContinue) {
                        Some(a) => a,
                        None => self.after_continue(),
                    }
                },
                _ => self.end(Outcome::Failed),
            },
            Phase::StratTapContinue => self.after_continue(),
            Phase::StratWaitShop => {
                if seen_id.is_some() {
                    self.go(Phase::StratExitShop, Action::PressBack)
                } else {
                    self.end(Outcome::Failed)
                }
            },
            Phase::StratExitShop => self.wait(Phase::StratWaitPrepSecond, Page::Preparation, 15, 500),
            Phase::StratWaitPrepSecond => match seen_id {
                Some(id) => {
                    self.battle(id, true)
                },
                _ => self.end(Outcome::Failed),
            },
            Phase::StratWaitStrategy => match seen_id {
                Some(id) => {
                    self.second = false;
                    let (a, g) = self.do_select(id);
                    proof {
                        pk = g@;
                    }
                    a
                },
                _ => self.end(Outcome::Failed),
            },
            _ => {
                let (a, g) = self.step_pick(seen_id, tapped, failed);
                proof {
                    pk = g@;
                }
                a
            },
        };
        (a, Ghost(pk))
    }

    /// The choice of a strategy card and what follows it.
    fn step_pick(&mut self, seen_id: Option<usize>, tapped: bool, failed: bool) -> (r: (Action, Ghost<int>))
        requires
            old(self).wf(),
            old(self).phase != Phase::Finished,
            seen_id matches Some(id) ==> id < old(self).seen@.len(),
        ensures
            (final(self)@, r.0@) == tr::pick_steps(old(self)@, seen_id, tapped, failed, r.1@),
            final(self).wf(),
            transition_ok(old(self)@, final(self)@, r.0),
    {
        let ghost mut pk: int = 0;
        let a = match self.phase {
            Phase::PickEmptySleep => self.go(Phase::PickRecapture, Action::Capture),
            Phase::PickRecapture => self.go(Phase::PickReobserve, Action::Observe(Page::InvestStrategy)),
            Phase::PickReobserve => {
                let handled = self.page;
                let (a, g) = match seen_id {
                    Some(id) => {
                        let names = self.strategy_names(id);
                        self.pick_decide(handled, names)
                    },
                    _ => self.pick_decide(handled, Vec::new()),
                };
                proof {
                    pk = g@;
                    assert(strs(Seq::<String>::empty()) =~= Seq::<Seq<char>>::empty());
                }
                a
            },
            Phase::PickSaveRefresh => {
                let p = self.page;
                let buttons = strategy_refresh_buttons(self.seen[p].as_slice());
                assert(self@.seen[p as int] == self.seen@[p as int]@);
                if buttons.len() > 0 {
                    proof {
                        assert forall|k: int| 0 <= k < buttons@.len() implies #[trigger] buttons@[k]
                            < self.seen@[p as int]@.len() by {
                            assert(buttons@.contains(buttons@[k]));
                        }
                    }
                    self.go(Phase::PickTapRefresh, Action::TapLeftOf { obs: p, elements: buttons, after_ms: 1000 })
                } else {
                    self.go(Phase::PickRefreshSleep, Action::Sleep(2000))
                }
            },
            Phase::PickTapRefresh => self.go(Phase::PickRefreshSleep, Action::Sleep(2000)),
            Phase::PickRefreshSleep => self.go(Phase::PickRefreshCapture, Action::Capture),
            Phase::PickRefreshCapture => self.go(
                Phase::PickWaitRefreshed,
                Action::WaitFor { page: Page::InvestStrategy, timeout_s: 10, poll_ms: 500 },
            ),
            Phase::PickWaitRefreshed => match seen_id {
                Some(id) => {
                    let (a, g) = self.pick_refreshed(id);
                    proof {
                        pk = g@;
                    }
                    a
                },
                _ => self.end(Outcome::Failed),
            },
            Phase::PickTapCard => self.go(Phase::PickSettle, Action::Sleep(3500)),
            Phase::PickSettle => self.go(Phase::PickSaveConfirm, Action::SaveOpening(Shot::StrategyBeforeConfirm)),
            Phase::PickSaveConfirm => {
                let p = self.page;
                match self.tap_button(p, Button::Confirm, 2000, Phase::PickTapConfirm) {
                    Some(a) => a,
                    None => self.go(Phase::AfterPickSleep, Action::Sleep(5000)),
                }
            },
            Phase::PickTapConfirm => self.go(Phase::AfterPickSleep, Action::Sleep(5000)),
            Phase::AfterPickSleep => self.go(Phase::AfterPickCapture, Action::Capture),
            Phase::AfterPickCapture => {
                if !self.second {
                    self.go(Phase::AfterPickSeeStrategy, Action::Observe(Page::InvestStrategy))
                } else {
                    self.go(Phase::AfterPickSeeShop, Action::Observe(Page::Shop))
                }
            },
            Phase::AfterPickSeeStrategy => match seen_id {
                Some(id) => {
                    self.second = true;
                    let (a, g) = self.do_select(id);
                    proof {
                        pk = g@;
                    }
                    a
                },
                _ => self.go(Phase::AfterPickSeeShop, Action::Observe(Page::Shop)),
            },
            Phase::AfterPickSeeShop => {
                if seen_id.is_some() {
                    self.go(Phase::FinalExitShop, Action::PressBack)
                } else {
                    self.end(Outcome::Error)
                }
            },
            Phase::FinalExitShop => {
                if !self.selector.has_active_openings() {
                    self.wait(Phase::FinalWaitPrep, Page::Preparation, 15, 500)
                } else {
                    self.end(Outcome::Success)
                }
            },
            Phase::FinalWaitPrep => {
                if seen_id.is_some() {
                    self.go(Phase::FinalExitCorner, Action::TapCorner { after_ms: 1000 })
                } else {
                    self.end(Outcome::Failed)
                }
            },
            Phase::FinalExitCorner => self.exit_game(),
            _ => self.step_exit(seen_id, tapped, failed),
        };
        (a, Ghost(pk))
    }

    /// Handles the strategy page `id` read again after a refresh.
    fn pick_refreshed(&mut self, id: usize) -> (r: (Action, Ghost<int>))
        requires
            old(self).wf(),
            old(self).phase != Phase::Finished,
            id < old(self).seen@.len(),
        ensures
            (final(self)@, r.0@) == tr::pick_refreshed(old(self)@, id, r.1@),
            final(self).wf(),
            transition_ok(old(self)@, final(self)@, r.0),
    {
        let ghost m0 = self@;
        let names = self.strategy_names(id);
        let ghost nm = strs(names@);
        let c = self.selector.select_strategy(names.as_slice(), false);
        let ghost pk = choose|pick: int|
            (names@.len() == 0 || 0 <= pick < names@.len()) && strategy_outcome(
                m0.selection,
                nm,
                false,
                pick,
                c,
                self.selector@,
            );
        proof {
            if names@.len() > 0 {
                vstd::arithmetic::div_mod::lemma_small_mod(pk as nat, names@.len() as nat);
            }
            assert(tr::drawn(pk, nm.len() as int) == pk || nm.len() == 0);
        }
        let (idx, name, reason) = c;
        self.pick_idx = idx;
        self.pick_name = name;
        self.page = id;
        let a = if !str_eq(reason.as_str(), "random") {
            self.pick_finish()
        } else {
            self.refresh_or_finish()
        };
        (a, Ghost(pk))
    }

    /// The way out of a game in progress.
    fn step_exit(&mut self, seen_id: Option<usize>, tapped: bool, failed: bool) -> (a: Action)
        requires
            old(self).wf(),
            old(self).phase != Phase::Finished,
            seen_id matches Some(id) ==> id < old(self).seen@.len(),
        ensures
            (final(self)@, a@) == tr::exit_steps(old(self)@, seen_id),
            final(self).wf(),
            transition_ok(old(self)@, final(self)@, a),
    {
        match self.phase {
            Phase::ExitCapture => self.wait(Phase::ExitWaitConfirm, Page::ExitConfirm, 5, 500),
            Phase::ExitWaitConfirm => match seen_id {
                Some(id) => {
                    match self.tap_button(id, Button::GiveUpAndSettle, 2000, Phase::ExitTapGiveUp) {
                        Some(a) => a,
                        None => self.go(Phase::ExitSleepConfirm, Action::Sleep(2000)),
                    }
                },
                _ => self.wait(Phase::ExitWaitFail, Page::ExitChallengeFail, 10, 500),
            },
            Phase::ExitTapGiveUp => self.go(Phase::ExitSleepConfirm, Action::Sleep(2000)),
            Phase::ExitSleepConfirm => self.wait(Phase::ExitWaitFail, Page::ExitChallengeFail, 10, 500),
            Phase::ExitWaitFail => match seen_id {
                Some(id) => {
                    match self.tap_button(id, Button::NextStep, 2000, Phase::ExitTapFail) {
                        Some(a) => a,
                        None => self.go(Phase::ExitSleepFail, Action::Sleep(2000)),
                    }
                },
                _ => self.wait(Phase::ExitWaitStats, Page::ExitStats, 10, 500),
            },
            Phase::ExitTapFail => self.go(Phase::ExitSleepFail, Action::Sleep(2000)),
            Phase::ExitSleepFail => self.wait(Phase::ExitWaitStats, Page::ExitStats, 10, 500),
            Phase::ExitWaitStats => match seen_id {
                Some(id) => {
                    match self.tap_button(id, Button::NextPage, 2000, Phase::ExitTapStats) {
                        Some(a) => a,
                        None => self.go(Phase::ExitSleepStats, Action::Sleep(2000)),
                    }
                },
                _ => self.go(Phase::ExitCaptureReturn, Action::Capture),
            },
            Phase::ExitTapStats => self.go(Phase::ExitSleepStats, Action::Sleep(2000)),
            Phase::ExitSleepStats => self.go(Phase::ExitCaptureReturn, Action::Capture),
            Phase::ExitCaptureReturn => self.wait(Phase::ExitWaitReturn, Page::ExitReturn, 5, 500),
            Phase::ExitWaitReturn => match seen_id {
                Some(id) => {
                    match self.tap_button(id, Button::ReturnToEvent, 2000, Phase::ExitTapReturn) {
                        Some(a) => a,
                        None => self.go(Phase::ExitSleepReturn, Action::Sleep(2000)),
                    }
                },
                _ => self.end(Outcome::Retry),
            },
            Phase::ExitTapReturn => self.go(Phase::ExitSleepReturn, Action::Sleep(2000)),
            Phase::ExitSleepReturn => self.end(Outcome::Retry),
            _ => self.end(Outcome::Error),
        }
    }

    /// Names of the strategy cards on page `id`.
    fn strategy_names(&self, id: usize) -> (r: Vec<String>)
        requires
            id < self.seen@.len(),
        ensures
            strs(r@) == tr::strategy_names_of(self@, id),
    {
        assert(self@.seen[id as int] == self.seen@[id as int]@);
        let cards = strategy_cards(self.seen[id].as_slice(), self.height);
        proof {
            assert forall|k: int| 0 <= k < cards@.len() implies #[trigger] cards@[k] < self.seen@[id as int]@.len() by {
                assert(cards@.contains(cards@[k]));
            }
        }
        card_names(&self.seen[id], &cards)
    }
}

} // verus!
