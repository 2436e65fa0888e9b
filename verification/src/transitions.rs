//! The reroll machine's steps as functions of its model: for every state,
//! event and drawn card, the state that follows and the action asked for.
//! Where a card is left to chance, `pick` stands for the draw; the card
//! taken is `pick` modulo the number of cards offered.

use vstd::prelude::*;
use crate::text::has_sub;
use crate::machine::{ActionView, Event, Finish, MachineView, Outcome, Phase, Shot, ENV_ROUNDS, CARDS_PLACED};
use crate::pages::{
    Button, Page, TextBox, button_at, env_cards_of, strategy_cards_of, refresh_buttons_of, refresh_count_of,
    game_mode_spec, texts, affix_line, STATE_IN_PROGRESS,
};
use crate::selection::{
    OpeningView, SelectionView, env_decision, some_hit, first_index, env_target, strategy_target,
    lemma_first_index_is_first_hit, strategy_decision, after_env_choice, after_strategy_choice, env_pred, strategy_pred,
    affix_pred,
};

verus! {

/// The machine moves to `phase` and asks for `a`.
pub open spec fn go(m: MachineView, phase: Phase, a: ActionView) -> (MachineView, ActionView) {
    (MachineView { phase, ..m }, a)
}

/// Every configured opening is possible again and nothing has been seen.
pub open spec fn reset_selection(s: SelectionView) -> SelectionView {
    SelectionView {
        active: s.openings,
        current_env: Seq::empty(),
        current_strategy: Seq::empty(),
        current_affixes: Seq::empty(),
        ..s
    }
}

/// The openings narrowed to those that accept the environment `env`.
pub open spec fn by_env(s: SelectionView, env: Seq<char>) -> SelectionView {
    SelectionView { active: s.active.filter(env_pred(env)), current_env: env, ..s }
}

/// The openings narrowed to those that accept the strategy `st`.
pub open spec fn by_strategy(s: SelectionView, st: Seq<char>) -> SelectionView {
    SelectionView { active: s.active.filter(strategy_pred(st)), current_strategy: st, ..s }
}

/// The openings narrowed to those that accept the boss affixes `a`.
pub open spec fn by_affixes(s: SelectionView, a: Seq<Seq<char>>) -> SelectionView {
    SelectionView { active: s.active.filter(affix_pred(a)), current_affixes: a, ..s }
}

/// Some configured opening asks for an environment.
pub open spec fn wants_envs(s: SelectionView) -> bool {
    exists|i: int| 0 <= i < s.openings.len() && #[trigger] s.openings[i].env.len() > 0
}

/// Some configured opening asks for a strategy.
pub open spec fn wants_strategies(s: SelectionView) -> bool {
    exists|i: int| 0 <= i < s.openings.len() && #[trigger] s.openings[i].strategy.len() > 0
}

/// The card that a draw of `pick` takes among `n`.
pub open spec fn drawn(pick: int, n: int) -> int {
    if n > 0 {
        pick % n
    } else {
        0
    }
}

/// The texts of the boxes `cards` of a page.
pub open spec fn card_texts(elems: Seq<TextBox>, cards: Seq<usize>) -> Seq<Seq<char>> {
    cards.map_values(|i: usize| elems[i as int].text@)
}

/// The boss affixes a page shows.
pub open spec fn affixes_of(elems: Seq<TextBox>, w: int, h: int) -> Seq<Seq<char>> {
    texts(elems.filter(crate::pages::affix_pred(affix_line(elems, h), w, h)))
}

/// The page `obs` seen in this attempt.
pub open spec fn page_seen(m: MachineView, obs: usize) -> Seq<TextBox> {
    m.seen[obs as int]
}

/// The attempt ends with `o`: success finishes the run, a retry starts the
/// next attempt, anything else pauses two seconds first.
pub open spec fn end(m: MachineView, o: Outcome) -> (MachineView, ActionView) {
    match o {
        Outcome::Success => go(MachineView { result: Finish::Success, ..m }, Phase::Finished, ActionView::Finish(Finish::Success)),
        Outcome::Retry => next_attempt(m),
        _ => go(m, Phase::Pause, ActionView::Sleep(2000)),
    }
}

/// The next attempt starts afresh, or the run finishes when none is left.
pub open spec fn next_attempt(m: MachineView) -> (MachineView, ActionView) {
    if m.tries < m.max_retry {
        go(
            MachineView { tries: m.tries + 1, selection: reset_selection(m.selection), seen: Seq::empty(), ..m },
            Phase::CaptureStart,
            ActionView::Capture,
        )
    } else {
        go(MachineView { result: Finish::Exhausted, ..m }, Phase::Finished, ActionView::Finish(Finish::Exhausted))
    }
}

/// Taps the button `b` of page `obs`, when the page shows it.
pub open spec fn tap_button(m: MachineView, obs: usize, b: Button, after_ms: u64, next: Phase) -> Option<(MachineView, ActionView)> {
    match button_at(b, page_seen(m, obs), m.width as int, m.height as int) {
        Some(i) => Some(go(m, next, ActionView::Tap { obs, element: i, after_ms })),
        None => None,
    }
}

/// Taps the button, or else goes on with `alt`.
pub open spec fn tap_or(
    m: MachineView,
    obs: usize,
    b: Button,
    after_ms: u64,
    next: Phase,
    alt: (MachineView, ActionView),
) -> (MachineView, ActionView) {
    match tap_button(m, obs, b, after_ms, next) {
        Some(x) => x,
        None => alt,
    }
}

/// Leaves the game in progress.
pub open spec fn exit_game(m: MachineView) -> (MachineView, ActionView) {
    go(m, Phase::ExitCapture, ActionView::Capture)
}

pub open spec fn wait(m: MachineView, next: Phase, page: Page, timeout_s: u64, poll_ms: u64) -> (MachineView, ActionView) {
    go(m, next, ActionView::WaitFor { page, timeout_s, poll_ms })
}

/// Taps the environment card `idx` of page `p` when it has one, else saves
/// the screen before confirming.
pub open spec fn confirm_env(m: MachineView, p: usize, idx: i32) -> (MachineView, ActionView) {
    let cards = env_cards_of(page_seen(m, p), m.height as int);
    let m1 = MachineView { page: p, ..m };
    if idx >= 0 && idx < cards.len() {
        go(m1, Phase::EnvTapCard, ActionView::Tap { obs: p, element: cards[idx as int], after_ms: 1000 })
    } else {
        go(m1, Phase::EnvSaveBeforeConfirm, ActionView::SaveOpening(Shot::EnvironmentBeforeConfirm))
    }
}

/// The choice among the environment names offered on page `handled`: a
/// chance card while some opening wants an environment leads to a refresh;
/// no card at all retries; otherwise the card is taken and the openings
/// narrowed to it.
pub open spec fn env_decide(m: MachineView, handled: usize, names: Seq<Seq<char>>, pick: int) -> (MachineView, ActionView) {
    let (i, reason) = env_decision(
        m.selection.active,
        m.selection.prefer_env,
        names,
        true,
        drawn(pick, names.len() as int),
    );
    let m1 = MachineView { selection: after_env_choice(m.selection, names, i, false), ..m };
    let name = if i < 0 {
        Seq::<char>::empty()
    } else {
        names[i]
    };
    if reason == "random"@ && wants_envs(m1.selection) {
        go(
            MachineView { page: handled, ..m1 },
            Phase::EnvSaveBeforeRefresh,
            ActionView::SaveOpening(Shot::EnvironmentBeforeRefresh),
        )
    } else if i as i32 == -1 {
        end(m1, Outcome::Retry)
    } else {
        confirm_env(MachineView { selection: by_env(m1.selection, name), ..m1 }, handled, i as i32)
    }
}

/// The names of the environment cards of page `id`.
pub open spec fn env_names_of(m: MachineView, id: usize) -> Seq<Seq<char>> {
    card_texts(page_seen(m, id), env_cards_of(page_seen(m, id), m.height as int))
}

/// The names of the strategy cards of page `id`.
pub open spec fn strategy_names_of(m: MachineView, id: usize) -> Seq<Seq<char>> {
    card_texts(page_seen(m, id), strategy_cards_of(page_seen(m, id), m.height as int))
}

/// The environment page `id`: with no card, wait and read it again.
pub open spec fn env_page(m: MachineView, id: usize, pick: int) -> (MachineView, ActionView) {
    let names = env_names_of(m, id);
    if names.len() == 0 {
        go(MachineView { page: id, ..m }, Phase::EnvEmptySleep, ActionView::Sleep(1000))
    } else {
        env_decide(m, id, names, pick)
    }
}

/// Takes the strategy card chosen: narrows the openings to it, taps it when
/// the page has it, then settles; no choice is an error.
pub open spec fn pick_finish(m: MachineView) -> (MachineView, ActionView) {
    if m.pick_idx == -1 {
        end(m, Outcome::Error)
    } else {
        let m1 = MachineView { selection: by_strategy(m.selection, m.pick_name), ..m };
        let cards = strategy_cards_of(page_seen(m, m.page), m.height as int);
        if m.pick_idx >= 0 && m.pick_idx < cards.len() {
            go(m1, Phase::PickTapCard, ActionView::Tap { obs: m.page, element: cards[m.pick_idx as int], after_ms: 1000 })
        } else {
            go(m1, Phase::PickSettle, ActionView::Sleep(3500))
        }
    }
}

/// Refreshes while refreshes are left, else takes the card chosen.
pub open spec fn refresh_or_finish(m: MachineView) -> (MachineView, ActionView) {
    if refresh_count_of(page_seen(m, m.page)) <= 0 {
        pick_finish(m)
    } else {
        go(m, Phase::PickSaveRefresh, ActionView::SaveOpening(Shot::StrategyBeforeRefresh))
    }
}

/// The choice among the strategy names offered on page `cur`.
pub open spec fn pick_decide(m: MachineView, cur: usize, names: Seq<Seq<char>>, pick: int) -> (MachineView, ActionView) {
    let (i, reason) = strategy_decision(m.selection.active, names, drawn(pick, names.len() as int));
    let m1 = MachineView {
        selection: after_strategy_choice(m.selection, names, i, false),
        pick_idx: i as i32,
        pick_name: if i < 0 {
            Seq::empty()
        } else {
            names[i]
        },
        page: cur,
        ..m
    };
    if reason == "random"@ && wants_strategies(m1.selection) {
        refresh_or_finish(m1)
    } else {
        pick_finish(m1)
    }
}

/// The strategy page `h`: with no card, wait and read it again.
pub open spec fn do_select(m: MachineView, h: usize, pick: int) -> (MachineView, ActionView) {
    let cards = strategy_cards_of(page_seen(m, h), m.height as int);
    if cards.len() == 0 {
        go(MachineView { page: h, ..m }, Phase::PickEmptySleep, ActionView::Sleep(1000))
    } else {
        pick_decide(m, h, card_texts(page_seen(m, h), cards), pick)
    }
}

/// Presses the battle button of page `p`.
pub open spec fn battle(m: MachineView, p: usize, second: bool) -> (MachineView, ActionView) {
    let m1 = MachineView { second, ..m };
    tap_or(m1, p, Button::Battle, 2000, Phase::StratTapBattle, end(m1, Outcome::Error))
}

/// After a battle's result: the first leads to the shop, the second to the
/// strategy choice.
pub open spec fn after_continue(m: MachineView) -> (MachineView, ActionView) {
    if !m.second {
        wait(m, Phase::StratWaitShop, Page::Shop, 10, 500)
    } else {
        wait(m, Phase::StratWaitStrategy, Page::InvestStrategy, 30, 500)
    }
}

/// The environment page `id` read again after a refresh: its card is taken
/// whatever the reason, and no card at all retries.
pub open spec fn env_refreshed(m: MachineView, id: usize, pick: int) -> (MachineView, ActionView) {
    let names = env_names_of(m, id);
    let (i, reason) = env_decision(m.selection.active, m.selection.prefer_env, names, true, drawn(pick, names.len() as int));
    let m1 = MachineView { selection: after_env_choice(m.selection, names, i, false), ..m };
    let name = if i < 0 {
        Seq::<char>::empty()
    } else {
        names[i]
    };
    if i as i32 == -1 {
        end(m1, Outcome::Retry)
    } else {
        confirm_env(MachineView { selection: by_env(m1.selection, name), ..m1 }, id, i as i32)
    }
}

/// The strategy page `id` read again after a refresh: a wanted card is
/// taken; otherwise refresh again while refreshes are left.
pub open spec fn pick_refreshed(m: MachineView, id: usize, pick: int) -> (MachineView, ActionView) {
    let names = strategy_names_of(m, id);
    let (i, reason) = strategy_decision(m.selection.active, names, drawn(pick, names.len() as int));
    let m1 = MachineView {
        selection: after_strategy_choice(m.selection, names, i, false),
        pick_idx: i as i32,
        pick_name: if i < 0 {
            Seq::empty()
        } else {
            names[i]
        },
        page: id,
        ..m
    };
    if reason != "random"@ {
        pick_finish(m1)
    } else {
        refresh_or_finish(m1)
    }
}

/// One step: a finished run stays finished; a page seen is kept first.
pub open spec fn next(m: MachineView, e: Event, pick: int) -> (MachineView, ActionView) {
    if m.phase == Phase::Finished {
        (m, ActionView::Finish(m.result))
    } else {
        let tapped = e == Event::Tapped(true);
        let failed = e is Failed;
        match e {
            Event::Seen(v) => early(
                MachineView { seen: m.seen.push(v@), ..m },
                Some(m.seen.len() as usize),
                tapped,
                failed,
                pick,
            ),
            _ => early(m, None, tapped, failed, pick),
        }
    }
}

/// From the start of an attempt to the end of the environment rounds.
pub open spec fn early(m: MachineView, seen_id: Option<usize>, tapped: bool, failed: bool, pick: int) -> (MachineView, ActionView) {
    match m.phase {
        Phase::Finished => (m, ActionView::Finish(m.result)),
        Phase::Idle | Phase::Pause => next_attempt(m),
        Phase::CaptureStart => go(m, Phase::SeePrep, ActionView::Observe(Page::Preparation)),
        Phase::SeePrep => go(MachineView { prep_seen: seen_id is Some, ..m }, Phase::SeeStart, ActionView::Observe(Page::Start)),
        Phase::SeeStart => if m.prep_seen {
            go(m, Phase::AbortCapture, ActionView::Capture)
        } else {
            match seen_id {
                Some(id) => tap_or(m, id, Button::StartRun, 2000, Phase::TapStart, end(m, Outcome::Error)),
                None => end(m, Outcome::Error),
            }
        },
        Phase::AbortCapture => go(m, Phase::AbortSee, ActionView::Observe(Page::Preparation)),
        Phase::AbortSee => if seen_id is Some {
            go(m, Phase::AbortTapped, ActionView::TapCorner { after_ms: 1000 })
        } else {
            end(m, Outcome::Retry)
        },
        Phase::AbortTapped => go(m, Phase::AbortSlept, ActionView::Sleep(1000)),
        Phase::AbortSlept => exit_game(m),
        Phase::TapStart => if tapped {
            wait(m, Phase::WaitGameMode, Page::GameMode, 10, 1500)
        } else {
            end(m, Outcome::Error)
        },
        Phase::WaitGameMode => match seen_id {
            Some(id) => if game_mode_spec(page_seen(m, id)) == Some(STATE_IN_PROGRESS) {
                tap_or(m, id, Button::EndAndSettle, 2000, Phase::TapEndSettle, end(m, Outcome::Error))
            } else {
                tap_or(m, id, Button::EnterStandard, 2000, Phase::TapEnter, end(m, Outcome::Error))
            },
            None => end(m, Outcome::Failed),
        },
        Phase::TapEndSettle => if tapped {
            exit_game(m)
        } else {
            end(m, Outcome::Error)
        },
        Phase::TapEnter => if tapped {
            wait(m, Phase::WaitDifficulty, Page::Difficulty, 10, 1500)
        } else {
            end(m, Outcome::Error)
        },
        Phase::WaitDifficulty => match seen_id {
            Some(id) => tap_or(m, id, Button::StartBattle, 2000, Phase::TapStartBattle, end(m, Outcome::Error)),
            None => end(m, Outcome::Failed),
        },
        Phase::TapStartBattle => if tapped {
            wait(m, Phase::WaitBoss, Page::BossAffix, 10, 1500)
        } else {
            end(m, Outcome::Error)
        },
        Phase::WaitBoss => match seen_id {
            Some(id) => go(MachineView { page: id, ..m }, Phase::SaveBoss, ActionView::SaveOpening(Shot::BossDetected)),
            None => end(m, Outcome::Failed),
        },
        Phase::SaveBoss => {
            let m1 = MachineView {
                selection: by_affixes(m.selection, affixes_of(page_seen(m, m.page), m.width as int, m.height as int)),
                ..m
            };
            tap_or(m1, m.page, Button::NextStep, 2000, Phase::TapBossNext, end(m1, Outcome::Error))
        },
        Phase::TapBossNext => if tapped {
            go(m, Phase::BossSlept, ActionView::Sleep(3000))
        } else {
            end(m, Outcome::Error)
        },
        Phase::BossSlept => wait(m, Phase::WaitPlane, Page::PlaneSelect, 10, 1500),
        Phase::WaitPlane => match seen_id {
            Some(id) => tap_or(m, id, Button::BlankContinue, 2000, Phase::TapPlane, end(m, Outcome::Error)),
            None => end(m, Outcome::Failed),
        },
        Phase::TapPlane => if tapped {
            wait(MachineView { round: 1, ..m }, Phase::EnvWaitPrep, Page::Preparation, 10, 500)
        } else {
            end(m, Outcome::Error)
        },
        Phase::EnvWaitPrep => if seen_id is Some {
            wait(m, Phase::StratWaitPrep, Page::Preparation, 15, 500)
        } else {
            wait(m, Phase::EnvWaitEnv, Page::InvestEnvironment, 10, 500)
        },
        Phase::EnvWaitEnv => match seen_id {
            Some(id) => env_page(m, id, pick),
            None => end(m, Outcome::Retry),
        },
        Phase::EnvEmptySleep => go(m, Phase::EnvRecapture, ActionView::Capture),
        Phase::EnvRecapture => go(m, Phase::EnvReobserve, ActionView::Observe(Page::InvestEnvironment)),
        Phase::EnvReobserve => match seen_id {
            Some(id) => env_decide(m, m.page, env_names_of(m, id), pick),
            None => env_decide(m, m.page, Seq::empty(), pick),
        },
        Phase::EnvSaveBeforeRefresh => match button_at(
            Button::RemainingRefreshes,
            page_seen(m, m.page),
            m.width as int,
            m.height as int,
        ) {
            Some(i) => go(m, Phase::EnvTapRefresh, ActionView::TapLeftOf { obs: m.page, elements: seq![i], after_ms: 1500 }),
            None => go(m, Phase::EnvRefreshSleep, ActionView::Sleep(2000)),
        },
        Phase::EnvTapRefresh => go(m, Phase::EnvRefreshSleep, ActionView::Sleep(2000)),
        Phase::EnvRefreshSleep => go(m, Phase::EnvRefreshCapture, ActionView::Capture),
        Phase::EnvRefreshCapture => wait(m, Phase::EnvWaitRefreshed, Page::InvestEnvironment, 10, 500),
        Phase::EnvWaitRefreshed => match seen_id {
            Some(id) => env_refreshed(m, id, pick),
            None => end(m, Outcome::Failed),
        },
        Phase::EnvTapCard => go(m, Phase::EnvSaveBeforeConfirm, ActionView::SaveOpening(Shot::EnvironmentBeforeConfirm)),
        Phase::EnvSaveBeforeConfirm => tap_or(
            m,
            m.page,
            Button::Confirm,
            1000,
            Phase::EnvTapConfirm,
            go(m, Phase::EnvSettle, ActionView::Sleep(2000)),
        ),
        Phase::EnvTapConfirm => go(m, Phase::EnvSettle, ActionView::Sleep(2000)),
        Phase::EnvSettle => go(m, Phase::EnvLoopSleep, ActionView::Sleep(2000)),
        Phase::EnvLoopSleep => if m.round < ENV_ROUNDS {
            wait(MachineView { round: (m.round + 1) as u32, ..m }, Phase::EnvWaitPrep, Page::Preparation, 10, 500)
        } else {
            end(m, Outcome::Retry)
        },
        _ => strategy_steps(m, seen_id, tapped, failed, pick),
    }
}

/// From the first preparation screen to the strategy choice.
pub open spec fn strategy_steps(m: MachineView, seen_id: Option<usize>, tapped: bool, failed: bool, pick: int) -> (MachineView, ActionView) {
    match m.phase {
        Phase::StratWaitPrep => match seen_id {
            Some(id) => if !(m.selection.active.len() > 0) {
                go(m, Phase::StratExitCorner, ActionView::TapCorner { after_ms: 1000 })
            } else {
                go(MachineView { prep_page: id, card: 0, ..m }, Phase::StratDrag, ActionView::DragCard(0))
            },
            None => end(m, Outcome::Failed),
        },
        Phase::StratExitCorner => exit_game(m),
        Phase::StratDrag => if failed {
            end(m, Outcome::Failed)
        } else {
            go(m, Phase::StratDragSleep, ActionView::Sleep(500))
        },
        Phase::StratDragSleep => go(m, Phase::StratSpecial, ActionView::HandleSpecialEvents),
        Phase::StratSpecial => if failed {
            end(m, Outcome::Failed)
        } else if m.card + 1 < CARDS_PLACED {
            go(MachineView { card: (m.card + 1) as usize, ..m }, Phase::StratDrag, ActionView::DragCard((m.card + 1) as usize))
        } else {
            battle(m, m.prep_page, false)
        },
        Phase::StratTapBattle => if tapped {
            go(m, Phase::StratDialog, ActionView::DismissNotEnoughDialog)
        } else {
            end(m, Outcome::Error)
        },
        Phase::StratDialog => if failed {
            end(m, Outcome::Failed)
        } else {
            wait(m, Phase::StratWaitSettle, Page::BattleSettlement, 600, 2000)
        },
        Phase::StratWaitSettle => match seen_id {
            Some(id) => tap_or(m, id, Button::ContinueChallenge, 2000, Phase::StratTapContinue, after_continue(m)),
            None => end(m, Outcome::Failed),
        },
        Phase::StratTapContinue => after_continue(m),
        Phase::StratWaitShop => if seen_id is Some {
            go(m, Phase::StratExitShop, ActionView::PressBack)
        } else {
            end(m, Outcome::Failed)
        },
        Phase::StratExitShop => wait(m, Phase::StratWaitPrepSecond, Page::Preparation, 15, 500),
        Phase::StratWaitPrepSecond => match seen_id {
            Some(id) => battle(m, id, true),
            None => end(m, Outcome::Failed),
        },
        Phase::StratWaitStrategy => match seen_id {
            Some(id) => do_select(MachineView { second: false, ..m }, id, pick),
            None => end(m, Outcome::Failed),
        },
        _ => pick_steps(m, seen_id, tapped, failed, pick),
    }
}

/// The choice of a strategy card and what follows it.
pub open spec fn pick_steps(m: MachineView, seen_id: Option<usize>, tapped: bool, failed: bool, pick: int) -> (MachineView, ActionView) {
    match m.phase {
        Phase::PickEmptySleep => go(m, Phase::PickRecapture, ActionView::Capture),
        Phase::PickRecapture => go(m, Phase::PickReobserve, ActionView::Observe(Page::InvestStrategy)),
        Phase::PickReobserve => match seen_id {
            Some(id) => pick_decide(m, m.page, strategy_names_of(m, id), pick),
            None => pick_decide(m, m.page, Seq::empty(), pick),
        },
        Phase::PickSaveRefresh => {
            let buttons = refresh_buttons_of(page_seen(m, m.page));
            if buttons.len() > 0 {
                go(m, Phase::PickTapRefresh, ActionView::TapLeftOf { obs: m.page, elements: buttons, after_ms: 1000 })
            } else {
                go(m, Phase::PickRefreshSleep, ActionView::Sleep(2000))
            }
        },
        Phase::PickTapRefresh => go(m, Phase::PickRefreshSleep, ActionView::Sleep(2000)),
        Phase::PickRefreshSleep => go(m, Phase::PickRefreshCapture, ActionView::Capture),
        Phase::PickRefreshCapture => wait(m, Phase::PickWaitRefreshed, Page::InvestStrategy, 10, 500),
        Phase::PickWaitRefreshed => match seen_id {
            Some(id) => pick_refreshed(m, id, pick),
            None => end(m, Outcome::Failed),
        },
        Phase::PickTapCard => go(m, Phase::PickSettle, ActionView::Sleep(3500)),
        Phase::PickSettle => go(m, Phase::PickSaveConfirm, ActionView::SaveOpening(Shot::StrategyBeforeConfirm)),
        Phase::PickSaveConfirm => tap_or(
            m,
            m.page,
            Button::Confirm,
            2000,
            Phase::PickTapConfirm,
            go(m, Phase::AfterPickSleep, ActionView::Sleep(5000)),
        ),
        Phase::PickTapConfirm => go(m, Phase::AfterPickSleep, ActionView::Sleep(5000)),
        Phase::AfterPickSleep => go(m, Phase::AfterPickCapture, ActionView::Capture),
        Phase::AfterPickCapture => if !m.second {
            go(m, Phase::AfterPickSeeStrategy, ActionView::Observe(Page::InvestStrategy))
        } else {
            go(m, Phase::AfterPickSeeShop, ActionView::Observe(Page::Shop))
        },
        Phase::AfterPickSeeStrategy => match seen_id {
            Some(id) => do_select(MachineView { second: true, ..m }, id, pick),
            None => go(m, Phase::AfterPickSeeShop, ActionView::Observe(Page::Shop)),
        },
        Phase::AfterPickSeeShop => if seen_id is Some {
            go(m, Phase::FinalExitShop, ActionView::PressBack)
        } else {
            end(m, Outcome::Error)
        },
        Phase::FinalExitShop => if !(m.selection.active.len() > 0) {
            wait(m, Phase::FinalWaitPrep, Page::Preparation, 15, 500)
        } else {
            end(m, Outcome::Success)
        },
        Phase::FinalWaitPrep => if seen_id is Some {
            go(m, Phase::FinalExitCorner, ActionView::TapCorner { after_ms: 1000 })
        } else {
            end(m, Outcome::Failed)
        },
        Phase::FinalExitCorner => exit_game(m),
        _ => exit_steps(m, seen_id),
    }
}

/// The way out of a game in progress: give up and settle, then step through
/// the result pages back to the event screen.
pub open spec fn exit_steps(m: MachineView, seen_id: Option<usize>) -> (MachineView, ActionView) {
    match m.phase {
        Phase::ExitCapture => wait(m, Phase::ExitWaitConfirm, Page::ExitConfirm, 5, 500),
        Phase::ExitWaitConfirm => match seen_id {
            Some(id) => tap_or(
                m,
                id,
                Button::GiveUpAndSettle,
                2000,
                Phase::ExitTapGiveUp,
                go(m, Phase::ExitSleepConfirm, ActionView::Sleep(2000)),
            ),
            None => wait(m, Phase::ExitWaitFail, Page::ExitChallengeFail, 10, 500),
        },
        Phase::ExitTapGiveUp => go(m, Phase::ExitSleepConfirm, ActionView::Sleep(2000)),
        Phase::ExitSleepConfirm => wait(m, Phase::ExitWaitFail, Page::ExitChallengeFail, 10, 500),
        Phase::ExitWaitFail => match seen_id {
            Some(id) => tap_or(m, id, Button::NextStep, 2000, Phase::ExitTapFail, go(m, Phase::ExitSleepFail, ActionView::Sleep(2000))),
            None => wait(m, Phase::ExitWaitStats, Page::ExitStats, 10, 500),
        },
        Phase::ExitTapFail => go(m, Phase::ExitSleepFail, ActionView::Sleep(2000)),
        Phase::ExitSleepFail => wait(m, Phase::ExitWaitStats, Page::ExitStats, 10, 500),
        Phase::ExitWaitStats => match seen_id {
            Some(id) => tap_or(m, id, Button::NextPage, 2000, Phase::ExitTapStats, go(m, Phase::ExitSleepStats, ActionView::Sleep(2000))),
            None => go(m, Phase::ExitCaptureReturn, ActionView::Capture),
        },
        Phase::ExitTapStats => go(m, Phase::ExitSleepStats, ActionView::Sleep(2000)),
        Phase::ExitSleepStats => go(m, Phase::ExitCaptureReturn, ActionView::Capture),
        Phase::ExitCaptureReturn => wait(m, Phase::ExitWaitReturn, Page::ExitReturn, 5, 500),
        Phase::ExitWaitReturn => match seen_id {
            Some(id) => tap_or(
                m,
                id,
                Button::ReturnToEvent,
                2000,
                Phase::ExitTapReturn,
                go(m, Phase::ExitSleepReturn, ActionView::Sleep(2000)),
            ),
            None => end(m, Outcome::Retry),
        },
        Phase::ExitTapReturn => go(m, Phase::ExitSleepReturn, ActionView::Sleep(2000)),
        Phase::ExitSleepReturn => end(m, Outcome::Retry),
        _ => end(m, Outcome::Error),
    }
}

/// Every opening of `b` is one of `a`.
#[verifier::opaque]
pub open spec fn narrowed(a: Seq<OpeningView>, b: Seq<OpeningView>) -> bool {
    forall|i: int| 0 <= i < b.len() ==> a.contains(#[trigger] b[i])
}

proof fn lemma_narrowed_filter(s: Seq<OpeningView>, p: spec_fn(OpeningView) -> bool)
    ensures
        #[trigger] narrowed(s, s.filter(p)),
{
    reveal(narrowed);
    assert forall|i: int| 0 <= i < s.filter(p).len() implies s.contains(#[trigger] s.filter(p)[i]) by {
        assert(s.filter(p).contains(s.filter(p)[i]));
        s.lemma_filter_contains_rev(p, s.filter(p)[i]);
    }
}

proof fn lemma_narrowed_same(s: Seq<OpeningView>)
    ensures
        #[trigger] narrowed(s, s),
{
    reveal(narrowed);
    assert forall|i: int| 0 <= i < s.len() implies s.contains(#[trigger] s[i]) by {}
}

/// One step either stays in the attempt, keeping the configuration and only
/// narrowing the wanted openings, or starts the next attempt with every
/// configured opening wanted again.
pub open spec fn narrows_or_restarts(m: MachineView, m2: MachineView) -> bool {
    &&& m2.selection.openings == m.selection.openings
    &&& m2.selection.prefer_env == m.selection.prefer_env
    &&& m2.tries == m.tries ==> narrowed(m.selection.active, m2.selection.active)
    &&& m2.tries != m.tries ==> m2.tries == m.tries + 1 && m2.selection.active == m.selection.openings
}

proof fn lemma_exit_narrows(m: MachineView, seen_id: Option<usize>)
    ensures
        narrows_or_restarts(m, exit_steps(m, seen_id).0),
{
    lemma_narrowed_same(m.selection.active);
}

proof fn lemma_pick_narrows(m: MachineView, seen_id: Option<usize>, tapped: bool, failed: bool, pick: int)
    ensures
        narrows_or_restarts(m, pick_steps(m, seen_id, tapped, failed, pick).0),
{
    lemma_narrowed_same(m.selection.active);
    lemma_exit_narrows(m, seen_id);
    assert forall|st: Seq<char>| #[trigger] narrowed(m.selection.active, m.selection.active.filter(strategy_pred(st))) by {
        lemma_narrowed_filter(m.selection.active, strategy_pred(st));
    }
}

proof fn lemma_strategy_narrows(m: MachineView, seen_id: Option<usize>, tapped: bool, failed: bool, pick: int)
    ensures
        narrows_or_restarts(m, strategy_steps(m, seen_id, tapped, failed, pick).0),
{
    lemma_narrowed_same(m.selection.active);
    lemma_pick_narrows(m, seen_id, tapped, failed, pick);
    assert forall|st: Seq<char>| #[trigger] narrowed(m.selection.active, m.selection.active.filter(strategy_pred(st))) by {
        lemma_narrowed_filter(m.selection.active, strategy_pred(st));
    }
}

#[verifier::rlimit(40)]
proof fn lemma_early_narrows(m: MachineView, seen_id: Option<usize>, tapped: bool, failed: bool, pick: int)
    ensures
        narrows_or_restarts(m, early(m, seen_id, tapped, failed, pick).0),
{
    lemma_narrowed_same(m.selection.active);
    lemma_strategy_narrows(m, seen_id, tapped, failed, pick);
    assert forall|env: Seq<char>| #[trigger] narrowed(m.selection.active, m.selection.active.filter(env_pred(env))) by {
        lemma_narrowed_filter(m.selection.active, env_pred(env));
    }
    assert forall|a: Seq<Seq<char>>| #[trigger] narrowed(m.selection.active, m.selection.active.filter(affix_pred(a))) by {
        lemma_narrowed_filter(m.selection.active, affix_pred(a));
    }
}

/// Within an attempt the wanted openings only narrow: a step either keeps
/// some of the openings it had (each kept one was wanted before), or starts
/// the next attempt with every configured opening wanted again; the
/// configured and preferred lists never change.
pub proof fn law_openings_only_narrow(m: MachineView, e: Event, pick: int)
    ensures
        narrows_or_restarts(m, next(m, e, pick).0),
{
    lemma_narrowed_same(m.selection.active);
    match e {
        Event::Seen(v) => {
            let m1 = MachineView { seen: m.seen.push(v@), ..m };
            lemma_early_narrows(m1, Some(m.seen.len() as usize), false, false, pick);
        },
        _ => {
            lemma_early_narrows(m, None, e == Event::Tapped(true), e is Failed, pick);
        },
    }
}

/// A wanted environment on offer is the one taken: when the environment
/// screen comes up with a card that holds an environment some wanted
/// opening asks for, the first such card is tapped, it becomes the current
/// environment, and the wanted openings narrow to those that accept it.
pub proof fn law_wanted_environment_is_taken(m: MachineView, v: Vec<TextBox>, pick: int)
    requires
        m.phase == Phase::EnvWaitEnv,
        m.seen.len() < usize::MAX,
        env_cards_of(v@, m.height as int).len() <= i32::MAX,
        some_hit(card_texts(v@, env_cards_of(v@, m.height as int)), env_target(m.selection.active)),
    ensures
        ({
            let cards = env_cards_of(v@, m.height as int);
            let names = card_texts(v@, cards);
            let i = first_index(names, env_target(m.selection.active));
            let (m2, a) = next(m, Event::Seen(v), pick);
            &&& a == ActionView::Tap { obs: m.seen.len() as usize, element: cards[i], after_ms: 1000 }
            &&& m2.selection.active == m.selection.active.filter(env_pred(names[i]))
            &&& m2.selection.current_env == names[i]
        }),
{
    let cards = env_cards_of(v@, m.height as int);
    let names = card_texts(v@, cards);
    let target = env_target(m.selection.active);
    lemma_first_index_is_first_hit(names, target);
    let id = m.seen.len() as usize;
    let m1 = MachineView { seen: m.seen.push(v@), ..m };
    assert(page_seen(m1, id) == v@);
    assert(env_names_of(m1, id) == names);
    let i = first_index(names, target);
    assert(0 <= i < cards.len());
    assert(i as i32 == i);
    assert(next(m, Event::Seen(v), pick) == early(m1, Some(id), false, false, pick));
    assert(early(m1, Some(id), false, false, pick) == env_page(m1, id, pick));
    assert(names.len() > 0);
    assert(env_page(m1, id, pick) == env_decide(m1, id, names, pick));
    let d = env_decision(m1.selection.active, m1.selection.prefer_env, names, true, drawn(pick, names.len() as int));
    assert(d.0 == i && d.1 == "target"@);
    assert("target"@ != "random"@) by {
        reveal_strlit("target");
        reveal_strlit("random");
        assert("target"@[0] != "random"@[0]);
    }
    let m2 = MachineView { selection: after_env_choice(m1.selection, names, i, false), ..m1 };
    let m3 = MachineView { selection: by_env(m2.selection, names[i]), ..m2 };
    assert(env_decide(m1, id, names, pick) == confirm_env(m3, id, i as i32));
}

/// A wanted strategy on offer is the one taken: when the strategy screen
/// comes up with a card that holds a strategy some wanted opening asks for,
/// the first such card is tapped, it becomes the current strategy, and the
/// wanted openings narrow to those that accept it.
pub proof fn law_wanted_strategy_is_taken(m: MachineView, v: Vec<TextBox>, pick: int)
    requires
        m.phase == Phase::StratWaitStrategy,
        m.seen.len() < usize::MAX,
        strategy_cards_of(v@, m.height as int).len() <= i32::MAX,
        some_hit(card_texts(v@, strategy_cards_of(v@, m.height as int)), strategy_target(m.selection.active)),
    ensures
        ({
            let cards = strategy_cards_of(v@, m.height as int);
            let names = card_texts(v@, cards);
            let i = first_index(names, strategy_target(m.selection.active));
            let (m2, a) = next(m, Event::Seen(v), pick);
            &&& a == ActionView::Tap { obs: m.seen.len() as usize, element: cards[i], after_ms: 1000 }
            &&& m2.selection.active == m.selection.active.filter(strategy_pred(names[i]))
            &&& m2.selection.current_strategy == names[i]
        }),
{
    let cards = strategy_cards_of(v@, m.height as int);
    let names = card_texts(v@, cards);
    let target = strategy_target(m.selection.active);
    lemma_first_index_is_first_hit(names, target);
    let id = m.seen.len() as usize;
    let m1 = MachineView { seen: m.seen.push(v@), ..m };
    assert(page_seen(m1, id) == v@);
    let i = first_index(names, target);
    assert(0 <= i < cards.len());
    assert(i as i32 == i);
    assert("target"@ != "random"@) by {
        reveal_strlit("target");
        reveal_strlit("random");
        assert("target"@[0] != "random"@[0]);
    }
    let m1s = MachineView { second: false, ..m1 };
    assert(next(m, Event::Seen(v), pick) == early(m1, Some(id), false, false, pick));
    assert(early(m1, Some(id), false, false, pick) == strategy_steps(m1, Some(id), false, false, pick));
    assert(strategy_steps(m1, Some(id), false, false, pick) == do_select(m1s, id, pick));
    assert(page_seen(m1s, id) == v@);
    assert(names.len() > 0);
    assert(do_select(m1s, id, pick) == pick_decide(m1s, id, names, pick));
    let d = strategy_decision(m1s.selection.active, names, drawn(pick, names.len() as int));
    assert(d.0 == i && d.1 == "target"@);
}

/// With no wanted and no preferred environment on offer while some
/// configured opening asks for an environment, the environment screen is
/// refreshed rather than a card taken: the screen is saved before the
/// refresh, no card is tapped, the wanted openings stay as they were, and
/// the next step taps left of the box that shows "剩余次数" when there is one.
pub proof fn law_unwanted_environments_are_refreshed(m: MachineView, v: Vec<TextBox>, pick: int, pick2: int)
    requires
        m.phase == Phase::EnvWaitEnv,
        m.seen.len() < usize::MAX,
        v@.len() <= usize::MAX,
        env_cards_of(v@, m.height as int).len() > 0,
        forall|c: int, i: int, k: int|
            0 <= c < env_cards_of(v@, m.height as int).len() && 0 <= i < m.selection.active.len() && 0 <= k
                < m.selection.active[i].env.len() ==> !has_sub(
                #[trigger] v@[env_cards_of(v@, m.height as int)[c] as int].text@,
                #[trigger] m.selection.active[i].env[k],
            ),
        forall|c: int, k: int|
            0 <= c < env_cards_of(v@, m.height as int).len() && 0 <= k < m.selection.prefer_env.len() ==> !has_sub(
                #[trigger] v@[env_cards_of(v@, m.height as int)[c] as int].text@,
                #[trigger] m.selection.prefer_env[k],
            ),
        exists|i: int| 0 <= i < m.selection.openings.len() && #[trigger] m.selection.openings[i].env.len() > 0,
    ensures
        ({
            let (m2, a) = next(m, Event::Seen(v), pick);
            &&& a == ActionView::SaveOpening(Shot::EnvironmentBeforeRefresh)
            &&& m2.selection.active == m.selection.active
            &&& m2.phase == Phase::EnvSaveBeforeRefresh
            &&& (exists|j: int| 0 <= j < v@.len() && #[trigger] has_sub(v@[j].text@, "剩余次数"@)) ==> {
                let a2 = next(m2, Event::Done, pick2).1;
                &&& a2 matches ActionView::TapLeftOf { obs, elements, after_ms }
                &&& obs == m.seen.len() && elements.len() == 1 && elements[0] < v@.len()
                    && has_sub(v@[elements[0] as int].text@, "剩余次数"@)
            }
        }),
{
    let h = m.height as int;
    let cards = env_cards_of(v@, h);
    let names = card_texts(v@, cards);
    let id = m.seen.len() as usize;
    let m1 = MachineView { seen: m.seen.push(v@), ..m };
    assert(page_seen(m1, id) == v@);
    assert(env_names_of(m1, id) == names);
    let active = m.selection.active;
    let target = env_target(active);
    let pref = crate::selection::prefer_target(m.selection.prefer_env);
    assert forall|c: int| 0 <= c < names.len() implies !target(#[trigger] names[c]) by {
        if target(names[c]) {
            let t = choose|t: Seq<char>| crate::selection::wanted_env(active, t) && has_sub(names[c], t);
            let (i, k) = choose|i: int, k: int|
                0 <= i < active.len() && 0 <= k < active[i].env.len() && #[trigger] active[i].env[k] == t;
            assert(names[c] == v@[cards[c] as int].text@);
            assert(!has_sub(v@[cards[c] as int].text@, active[i].env[k]));
        }
    }
    assert forall|c: int| 0 <= c < names.len() implies !pref(#[trigger] names[c]) by {
        if pref(names[c]) {
            let k = choose|k: int| 0 <= k < m.selection.prefer_env.len() && has_sub(names[c], #[trigger] m.selection.prefer_env[k]);
            assert(names[c] == v@[cards[c] as int].text@);
            assert(!has_sub(v@[cards[c] as int].text@, m.selection.prefer_env[k]));
        }
    }
    assert(!some_hit(names, target));
    assert(!some_hit(names, pref));
    let d = env_decision(active, m.selection.prefer_env, names, true, drawn(pick, names.len() as int));
    assert(d.1 == "random"@);
    assert(next(m, Event::Seen(v), pick) == early(m1, Some(id), false, false, pick));
    assert(early(m1, Some(id), false, false, pick) == env_page(m1, id, pick));
    assert(env_page(m1, id, pick) == env_decide(m1, id, names, pick));
    let m2 = next(m, Event::Seen(v), pick).0;
    assert(m2.page == id);
    if exists|j: int| 0 <= j < v@.len() && #[trigger] has_sub(v@[j].text@, "剩余次数"@) {
        let j = choose|j: int| 0 <= j < v@.len() && #[trigger] has_sub(v@[j].text@, "剩余次数"@);
        let (kws, z) = crate::pages::button_rule(Button::RemainingRefreshes);
        assert(crate::pages::all_occur(v@[j].text@, kws));
        assert(crate::pages::box_matches(v@[j], kws, z, m.width as int, h));
        crate::pages::lemma_some_first_box(v@, kws, z, m.width as int, h, j);
        assert(page_seen(m2, m2.page) == v@);
        crate::pages::law_button_box_shows_its_label(Button::RemainingRefreshes, v@, m.width as int, h);
        assert(next(m2, Event::Done, pick2) == early(m2, None, false, false, pick2));
    }
}

/// On the first preparation screen, a run with no wanted opening left
/// leaves the game (tap on the back arrow) and one with a wanted opening
/// starts placing the first hand card.
pub proof fn law_first_preparation_leaves_or_places_cards(m: MachineView, v: Vec<TextBox>, pick: int)
    requires
        m.phase == Phase::StratWaitPrep,
    ensures
        m.selection.active.len() == 0 ==> next(m, Event::Seen(v), pick).1 == (ActionView::TapCorner { after_ms: 1000 }),
        m.selection.active.len() > 0 ==> next(m, Event::Seen(v), pick).1 == ActionView::DragCard(0),
{
}

/// Four hand cards are placed, one after another, before the first battle:
/// after the events of card `c` the next card is dragged while fewer than
/// four are placed, and then the battle button is looked for.
pub proof fn law_four_cards_are_placed(m: MachineView, pick: int)
    requires
        m.phase == Phase::StratSpecial,
        m.card < 3,
    ensures
        next(m, Event::Done, pick).1 == ActionView::DragCard((m.card + 1) as usize),
        next(m, Event::Done, pick).0.card == m.card + 1,
{
}

/// After the fourth card no card is dragged: the battle button is tapped
/// when the preparation screen shows it, else the attempt pauses.
pub proof fn law_battle_after_the_fourth_card(m: MachineView, pick: int)
    requires
        m.phase == Phase::StratSpecial,
        m.card == 3,
    ensures
        !(next(m, Event::Done, pick).1 is DragCard),
{
}

/// The run succeeds when it leaves the last shop with a wanted opening
/// left; without one it goes back to the preparation screen to leave.
pub proof fn law_success_needs_a_wanted_opening(m: MachineView, pick: int)
    requires
        m.phase == Phase::FinalExitShop,
    ensures
        m.selection.active.len() > 0 ==> next(m, Event::Done, pick).1 == ActionView::Finish(Finish::Success),
        m.selection.active.len() == 0 ==> next(m, Event::Done, pick).1 == (ActionView::WaitFor {
            page: Page::Preparation,
            timeout_s: 15,
            poll_ms: 500,
        }),
{
}

/// The environment screen is gone through at most five times in an
/// attempt: after round `r` the next round waits for the screens again
/// while `r < 5`; after the fifth the attempt is retried.
pub proof fn law_at_most_five_environment_rounds(m: MachineView, pick: int)
    requires
        m.phase == Phase::EnvLoopSleep,
    ensures
        m.round < 5 ==> next(m, Event::Done, pick).1 == (ActionView::WaitFor {
            page: Page::Preparation,
            timeout_s: 10,
            poll_ms: 500,
        }) && next(m, Event::Done, pick).0.round == m.round + 1,
        m.round >= 5 && m.tries < m.max_retry ==> next(m, Event::Done, pick).1 == ActionView::Capture,
        m.round >= 5 && m.tries >= m.max_retry ==> next(m, Event::Done, pick).1 == ActionView::Finish(Finish::Exhausted),
{
}

/// An attempt that is retried starts the next one at once while attempts
/// are left (one more attempt, every configured opening wanted again,
/// nothing seen), and otherwise the run ends as exhausted.
pub proof fn law_retry_starts_afresh_or_ends(m: MachineView)
    ensures
        m.tries < m.max_retry ==> ({
            let (m2, a) = end(m, Outcome::Retry);
            &&& a == ActionView::Capture
            &&& m2.tries == m.tries + 1
            &&& m2.selection.active == m.selection.openings
            &&& m2.seen.len() == 0
        }),
        m.tries >= m.max_retry ==> end(m, Outcome::Retry).1 == ActionView::Finish(Finish::Exhausted),
{
}

/// With no wanted strategy on offer while some configured opening asks for
/// a strategy, the strategy cards are refreshed while refreshes are left:
/// the screen is saved before the refresh and no card is tapped.
pub proof fn law_unwanted_strategies_are_refreshed(m: MachineView, v: Vec<TextBox>, pick: int)
    requires
        m.phase == Phase::StratWaitStrategy,
        m.seen.len() < usize::MAX,
        strategy_cards_of(v@, m.height as int).len() > 0,
        forall|c: int, i: int, k: int|
            0 <= c < strategy_cards_of(v@, m.height as int).len() && 0 <= i < m.selection.active.len() && 0 <= k
                < m.selection.active[i].strategy.len() ==> !has_sub(
                #[trigger] v@[strategy_cards_of(v@, m.height as int)[c] as int].text@,
                #[trigger] m.selection.active[i].strategy[k],
            ),
        exists|i: int| 0 <= i < m.selection.openings.len() && #[trigger] m.selection.openings[i].strategy.len() > 0,
        refresh_count_of(v@) > 0,
    ensures
        ({
            let (m2, a) = next(m, Event::Seen(v), pick);
            &&& a == ActionView::SaveOpening(Shot::StrategyBeforeRefresh)
            &&& m2.selection.active == m.selection.active
            &&& m2.phase == Phase::PickSaveRefresh
        }),
{
    let h = m.height as int;
    let cards = strategy_cards_of(v@, h);
    let names = card_texts(v@, cards);
    let id = m.seen.len() as usize;
    let m1 = MachineView { seen: m.seen.push(v@), ..m };
    let m1s = MachineView { second: false, ..m1 };
    assert(page_seen(m1s, id) == v@);
    let active = m.selection.active;
    let target = strategy_target(active);
    assert forall|c: int| 0 <= c < names.len() implies !target(#[trigger] names[c]) by {
        if target(names[c]) {
            let t = choose|t: Seq<char>| crate::selection::wanted_strategy(active, t) && has_sub(names[c], t);
            let (i, k) = choose|i: int, k: int|
                0 <= i < active.len() && 0 <= k < active[i].strategy.len() && #[trigger] active[i].strategy[k] == t;
            assert(names[c] == v@[cards[c] as int].text@);
            assert(!has_sub(v@[cards[c] as int].text@, active[i].strategy[k]));
        }
    }
    assert(!some_hit(names, target));
    let d = strategy_decision(active, names, drawn(pick, names.len() as int));
    assert(d.1 == "random"@);
    assert(next(m, Event::Seen(v), pick) == early(m1, Some(id), false, false, pick));
    assert(early(m1, Some(id), false, false, pick) == strategy_steps(m1, Some(id), false, false, pick));
    assert(strategy_steps(m1, Some(id), false, false, pick) == do_select(m1s, id, pick));
    assert(do_select(m1s, id, pick) == pick_decide(m1s, id, names, pick));
}


/// On the game-mode screen a game in progress is ended first: when the
/// screen offers to end and settle or to continue, the box that shows
/// "结束并结算" is tapped; a screen with neither offer but with "进入标准博弈"
/// has the box that shows "进入标准博弈" tapped.
pub proof fn law_game_in_progress_is_ended_first(m: MachineView, v: Vec<TextBox>, pick: int)
    requires
        m.phase == Phase::WaitGameMode,
        m.seen.len() < usize::MAX,
        v@.len() <= usize::MAX,
    ensures
        ({
            let all = crate::pages::joined(v@);
            let a = next(m, Event::Seen(v), pick).1;
            &&& has_sub(all, "结束并结算"@) && has_sub(all, "继续进度"@) && (exists|j: int|
                0 <= j < v@.len() && #[trigger] has_sub(v@[j].text@, "结束并结算"@)) ==> (a matches ActionView::Tap {
                obs,
                element,
                after_ms,
            } && obs == m.seen.len() && element < v@.len() && has_sub(v@[element as int].text@, "结束并结算"@))
            &&& has_sub(all, "进入标准博弈"@) && !has_sub(all, "结束并结算"@) && !has_sub(all, "继续进度"@) && (exists|j: int|
                0 <= j < v@.len() && #[trigger] has_sub(v@[j].text@, "进入标准博弈"@)) ==> (a matches ActionView::Tap {
                obs,
                element,
                after_ms,
            } && obs == m.seen.len() && element < v@.len() && has_sub(v@[element as int].text@, "进入标准博弈"@))
        }),
{
    let id = m.seen.len() as usize;
    let m1 = MachineView { seen: m.seen.push(v@), ..m };
    assert(page_seen(m1, id) == v@);
    let w = m.width as int;
    let h = m.height as int;
    crate::pages::law_game_mode_state_by_its_offers(v@);
    assert(next(m, Event::Seen(v), pick) == early(m1, Some(id), false, false, pick));
    if exists|j: int| 0 <= j < v@.len() && #[trigger] has_sub(v@[j].text@, "结束并结算"@) {
        let j = choose|j: int| 0 <= j < v@.len() && #[trigger] has_sub(v@[j].text@, "结束并结算"@);
        let (kws, z) = crate::pages::button_rule(Button::EndAndSettle);
        assert(crate::pages::all_occur(v@[j].text@, kws));
        assert(crate::pages::box_matches(v@[j], kws, z, w, h));
        crate::pages::lemma_some_first_box(v@, kws, z, w, h, j);
        crate::pages::law_button_box_shows_its_label(Button::EndAndSettle, v@, w, h);
    }
    if exists|j: int| 0 <= j < v@.len() && #[trigger] has_sub(v@[j].text@, "进入标准博弈"@) {
        let j = choose|j: int| 0 <= j < v@.len() && #[trigger] has_sub(v@[j].text@, "进入标准博弈"@);
        let (kws, z) = crate::pages::button_rule(Button::EnterStandard);
        assert(crate::pages::all_occur(v@[j].text@, kws));
        assert(crate::pages::box_matches(v@[j], kws, z, w, h));
        crate::pages::lemma_some_first_box(v@, kws, z, w, h, j);
        crate::pages::law_button_box_shows_its_label(Button::EnterStandard, v@, w, h);
    }
}


/// An opening accepts the affixes `a` when it lists none, or when one of
/// the affixes it lists occurs in one of `a`.
pub open spec fn shows_a_listed_affix(o: OpeningView, a: Seq<Seq<char>>) -> bool {
    o.affix.len() == 0 || exists|k: int, j: int| 0 <= k < o.affix.len() && 0 <= j < a.len() && #[trigger] has_sub(a[j], o.affix[k])
}

/// Once the boss screen is saved, the boss affixes it shows become the
/// current ones and the wanted openings narrow, in their order, to those
/// that list no affix or one that occurs in an affix shown; then the box
/// that shows "下一步" is tapped when there is one.
pub proof fn law_boss_affixes_narrow_the_openings(m: MachineView, pick: int)
    requires
        m.phase == Phase::SaveBoss,
        page_seen(m, m.page).len() <= usize::MAX,
    ensures
        ({
            let page = page_seen(m, m.page);
            let shown = affixes_of(page, m.width as int, m.height as int);
            let (m2, a) = next(m, Event::Done, pick);
            &&& m2.selection.current_affixes == shown
            &&& m2.selection.active == m.selection.active.filter(|o: OpeningView| shows_a_listed_affix(o, shown))
            &&& (exists|j: int| 0 <= j < page.len() && #[trigger] has_sub(page[j].text@, "下一步"@)) ==> (a matches ActionView::Tap {
                obs,
                element,
                after_ms,
            } && obs == m.page && element < page.len() && has_sub(page[element as int].text@, "下一步"@))
        }),
{
    let page = page_seen(m, m.page);
    let w = m.width as int;
    let h = m.height as int;
    let shown = affixes_of(page, w, h);
    assert forall|o: OpeningView| #[trigger] affix_pred(shown)(o) == shows_a_listed_affix(o, shown) by {
        crate::selection::law_affixes_accepted_when_one_listed_affix_is_shown(o, shown);
    }
    assert(affix_pred(shown) =~= (|o: OpeningView| shows_a_listed_affix(o, shown)));
    if exists|j: int| 0 <= j < page.len() && #[trigger] has_sub(page[j].text@, "下一步"@) {
        let j = choose|j: int| 0 <= j < page.len() && #[trigger] has_sub(page[j].text@, "下一步"@);
        let (kws, z) = crate::pages::button_rule(Button::NextStep);
        assert(crate::pages::all_occur(page[j].text@, kws));
        assert(crate::pages::box_matches(page[j], kws, z, w, h));
        crate::pages::lemma_some_first_box(page, kws, z, w, h, j);
        crate::pages::law_button_box_shows_its_label(Button::NextStep, page, w, h);
    }
}


/// A name holds one of the preferred environments `prefer`.
pub open spec fn holds_a_preferred(name: Seq<char>, prefer: Seq<Seq<char>>) -> bool {
    exists|k: int| 0 <= k < prefer.len() && #[trigger] has_sub(name, prefer[k])
}

/// With no wanted environment on offer, the first card that holds a
/// preferred environment is taken: it is tapped, it becomes the current
/// environment, and the wanted openings narrow to those that accept it.
pub proof fn law_preferred_environment_is_taken(m: MachineView, v: Vec<TextBox>, pick: int)
    requires
        m.phase == Phase::EnvWaitEnv,
        m.seen.len() < usize::MAX,
        env_cards_of(v@, m.height as int).len() <= i32::MAX,
        forall|c: int, i: int, k: int|
            0 <= c < env_cards_of(v@, m.height as int).len() && 0 <= i < m.selection.active.len() && 0 <= k
                < m.selection.active[i].env.len() ==> !has_sub(
                #[trigger] v@[env_cards_of(v@, m.height as int)[c] as int].text@,
                #[trigger] m.selection.active[i].env[k],
            ),
        exists|c: int|
            0 <= c < env_cards_of(v@, m.height as int).len() && #[trigger] holds_a_preferred(
                v@[env_cards_of(v@, m.height as int)[c] as int].text@,
                m.selection.prefer_env,
            ),
    ensures
        ({
            let cards = env_cards_of(v@, m.height as int);
            let (m2, a) = next(m, Event::Seen(v), pick);
            exists|c: int|
                {
                    &&& 0 <= c < cards.len()
                    &&& #[trigger] holds_a_preferred(v@[cards[c] as int].text@, m.selection.prefer_env)
                    &&& forall|d: int| 0 <= d < c ==> !#[trigger] holds_a_preferred(v@[cards[d] as int].text@, m.selection.prefer_env)
                    &&& a == ActionView::Tap { obs: m.seen.len() as usize, element: cards[c], after_ms: 1000 }
                    &&& m2.selection.current_env == v@[cards[c] as int].text@
                    &&& m2.selection.active == m.selection.active.filter(env_pred(v@[cards[c] as int].text@))
                }
        }),
{
    let h = m.height as int;
    let cards = env_cards_of(v@, h);
    let names = card_texts(v@, cards);
    let id = m.seen.len() as usize;
    let m1 = MachineView { seen: m.seen.push(v@), ..m };
    assert(page_seen(m1, id) == v@);
    assert(env_names_of(m1, id) == names);
    let active = m.selection.active;
    let target = env_target(active);
    let pref = crate::selection::prefer_target(m.selection.prefer_env);
    assert forall|c: int| 0 <= c < names.len() implies !target(#[trigger] names[c]) by {
        if target(names[c]) {
            let t = choose|t: Seq<char>| crate::selection::wanted_env(active, t) && has_sub(names[c], t);
            let (i, k) = choose|i: int, k: int|
                0 <= i < active.len() && 0 <= k < active[i].env.len() && #[trigger] active[i].env[k] == t;
            assert(names[c] == v@[cards[c] as int].text@);
            assert(!has_sub(v@[cards[c] as int].text@, active[i].env[k]));
        }
    }
    assert forall|c: int| 0 <= c < names.len() implies #[trigger] pref(names[c]) == holds_a_preferred(
        v@[cards[c] as int].text@,
        m.selection.prefer_env,
    ) by {
        assert(names[c] == v@[cards[c] as int].text@);
    }
    let c0 = choose|c: int| 0 <= c < cards.len() && #[trigger] holds_a_preferred(v@[cards[c] as int].text@, m.selection.prefer_env);
    assert(pref(names[c0]));
    assert(!some_hit(names, target));
    assert(some_hit(names, pref));
    lemma_first_index_is_first_hit(names, pref);
    let i = first_index(names, pref);
    let d = env_decision(active, m.selection.prefer_env, names, true, drawn(pick, names.len() as int));
    assert(d.0 == i && d.1 == "prefer"@);
    assert("prefer"@ != "random"@) by {
        reveal_strlit("prefer");
        reveal_strlit("random");
        assert("prefer"@[0] != "random"@[0]);
    }
    assert(i as i32 == i);
    assert(next(m, Event::Seen(v), pick) == early(m1, Some(id), false, false, pick));
    assert(early(m1, Some(id), false, false, pick) == env_page(m1, id, pick));
    assert(env_page(m1, id, pick) == env_decide(m1, id, names, pick));
    let m2 = MachineView { selection: after_env_choice(m1.selection, names, i, false), ..m1 };
    let m3 = MachineView { selection: by_env(m2.selection, names[i]), ..m2 };
    assert(env_decide(m1, id, names, pick) == confirm_env(m3, id, i as i32));
    assert(forall|dd: int| 0 <= dd < i ==> !pref(#[trigger] names[dd]));
    assert(names[i] == v@[cards[i] as int].text@);
    assert forall|dd: int| 0 <= dd < i implies !#[trigger] holds_a_preferred(v@[cards[dd] as int].text@, m.selection.prefer_env) by {
        assert(!pref(names[dd]));
    }
}


/// With no wanted strategy on offer and no refresh to be made (no opening
/// asks for a strategy, or no refresh is left), the drawn strategy card is
/// taken: the card `pick` modulo the number of cards is tapped and the
/// wanted openings narrow to those that accept it.
pub proof fn law_drawn_strategy_is_taken_when_no_refresh_is_made(m: MachineView, v: Vec<TextBox>, pick: int)
    requires
        m.phase == Phase::StratWaitStrategy,
        m.seen.len() < usize::MAX,
        0 < strategy_cards_of(v@, m.height as int).len() <= i32::MAX,
        forall|c: int, i: int, k: int|
            0 <= c < strategy_cards_of(v@, m.height as int).len() && 0 <= i < m.selection.active.len() && 0 <= k
                < m.selection.active[i].strategy.len() ==> !has_sub(
                #[trigger] v@[strategy_cards_of(v@, m.height as int)[c] as int].text@,
                #[trigger] m.selection.active[i].strategy[k],
            ),
        (forall|i: int| 0 <= i < m.selection.openings.len() ==> #[trigger] m.selection.openings[i].strategy.len() == 0)
            || refresh_count_of(v@) <= 0,
    ensures
        ({
            let cards = strategy_cards_of(v@, m.height as int);
            let c = pick % (cards.len() as int);
            let (m2, a) = next(m, Event::Seen(v), pick);
            &&& a == ActionView::Tap { obs: m.seen.len() as usize, element: cards[c], after_ms: 1000 }
            &&& m2.selection.current_strategy == v@[cards[c] as int].text@
            &&& m2.selection.active == m.selection.active.filter(strategy_pred(v@[cards[c] as int].text@))
        }),
{
    let h = m.height as int;
    let cards = strategy_cards_of(v@, h);
    let names = card_texts(v@, cards);
    let id = m.seen.len() as usize;
    let m1 = MachineView { seen: m.seen.push(v@), ..m };
    let m1s = MachineView { second: false, ..m1 };
    assert(page_seen(m1s, id) == v@);
    let active = m.selection.active;
    let target = strategy_target(active);
    assert forall|c: int| 0 <= c < names.len() implies !target(#[trigger] names[c]) by {
        if target(names[c]) {
            let t = choose|t: Seq<char>| crate::selection::wanted_strategy(active, t) && has_sub(names[c], t);
            let (i, k) = choose|i: int, k: int|
                0 <= i < active.len() && 0 <= k < active[i].strategy.len() && #[trigger] active[i].strategy[k] == t;
            assert(names[c] == v@[cards[c] as int].text@);
            assert(!has_sub(v@[cards[c] as int].text@, active[i].strategy[k]));
        }
    }
    assert(!some_hit(names, target));
    let c = pick % (cards.len() as int);
    let d = strategy_decision(active, names, drawn(pick, names.len() as int));
    assert(d.0 == c && d.1 == "random"@);
    assert(c as i32 == c);
    assert(names[c] == v@[cards[c] as int].text@);
    assert(next(m, Event::Seen(v), pick) == early(m1, Some(id), false, false, pick));
    assert(early(m1, Some(id), false, false, pick) == strategy_steps(m1, Some(id), false, false, pick));
    assert(strategy_steps(m1, Some(id), false, false, pick) == do_select(m1s, id, pick));
    assert(do_select(m1s, id, pick) == pick_decide(m1s, id, names, pick));
}


/// After a refresh the environment screen is not refreshed again: one of
/// its cards is tapped and becomes the current environment, and the wanted
/// openings narrow to those that accept it.
pub proof fn law_refreshed_environments_are_not_refreshed_again(m: MachineView, v: Vec<TextBox>, pick: int)
    requires
        m.phase == Phase::EnvWaitRefreshed,
        m.seen.len() < usize::MAX,
        0 < env_cards_of(v@, m.height as int).len() <= i32::MAX,
    ensures
        ({
            let cards = env_cards_of(v@, m.height as int);
            let (m2, a) = next(m, Event::Seen(v), pick);
            exists|c: int|
                {
                    &&& 0 <= c < cards.len()
                    &&& a == ActionView::Tap { obs: m.seen.len() as usize, element: #[trigger] cards[c], after_ms: 1000 }
                    &&& m2.selection.current_env == v@[cards[c] as int].text@
                    &&& m2.selection.active == m.selection.active.filter(env_pred(v@[cards[c] as int].text@))
                }
        }),
{
    let h = m.height as int;
    let cards = env_cards_of(v@, h);
    let names = card_texts(v@, cards);
    let id = m.seen.len() as usize;
    let m1 = MachineView { seen: m.seen.push(v@), ..m };
    assert(page_seen(m1, id) == v@);
    assert(env_names_of(m1, id) == names);
    let active = m.selection.active;
    let target = env_target(active);
    let pref = crate::selection::prefer_target(m.selection.prefer_env);
    if some_hit(names, target) {
        lemma_first_index_is_first_hit(names, target);
    } else if some_hit(names, pref) {
        lemma_first_index_is_first_hit(names, pref);
    }
    let d = env_decision(active, m.selection.prefer_env, names, true, drawn(pick, names.len() as int));
    let i = d.0;
    assert(0 <= i < cards.len());
    assert(i as i32 == i);
    assert(names[i] == v@[cards[i] as int].text@);
    assert(next(m, Event::Seen(v), pick) == early(m1, Some(id), false, false, pick));
    assert(early(m1, Some(id), false, false, pick) == env_refreshed(m1, id, pick));
    let m2 = MachineView { selection: after_env_choice(m1.selection, names, i, false), ..m1 };
    let m3 = MachineView { selection: by_env(m2.selection, names[i]), ..m2 };
    assert(env_refreshed(m1, id, pick) == confirm_env(m3, id, i as i32));
    let a = next(m, Event::Seen(v), pick).1;
    assert(a == ActionView::Tap { obs: id, element: cards[i], after_ms: 1000 });
}

/// A finished run stays finished: whatever comes, the state is kept and the
/// same result is given again.
pub proof fn law_finished_run_stays_finished(m: MachineView, e: Event, pick: int)
    requires
        m.phase == Phase::Finished,
    ensures
        next(m, e, pick) == (m, ActionView::Finish(m.result)),
{
}

/// An attempt that fails or meets an error pauses two seconds, and then the
/// next attempt starts afresh while attempts are left; otherwise the run
/// ends as exhausted.
pub proof fn law_errors_pause_before_the_next_attempt(m: MachineView, o: Outcome, e: Event, pick: int)
    requires
        o == Outcome::Error || o == Outcome::Failed,
        m.phase != Phase::Finished,
    ensures
        ({
            let (m2, a) = end(m, o);
            let (m3, a3) = next(m2, e, pick);
            &&& a == ActionView::Sleep(2000)
            &&& m2.phase == Phase::Pause
            &&& m2.tries < m2.max_retry ==> a3 == ActionView::Capture && m3.tries == m.tries + 1
                && m3.selection.active == m.selection.openings && m3.seen.len() == 0
            &&& m2.tries >= m2.max_retry ==> a3 == ActionView::Finish(Finish::Exhausted)
        }),
{
    let m2 = end(m, o).0;
    match e {
        Event::Seen(v) => {
            assert(next(m2, e, pick) == early(MachineView { seen: m2.seen.push(v@), ..m2 }, Some(m2.seen.len() as usize), false, false, pick));
        },
        _ => {},
    }
}


/// The labels that a box tapped in phase `p` may show, when `p` taps a
/// button: "货币战争" to start a run, "结束并结算" or "进入标准博弈" on the
/// game-mode screen, "开始对局" for the difficulty, "下一步" after the boss
/// and after a lost challenge, "点击空白处继续" for the plane, "确认" to
/// confirm a card, "出战" for a battle, "继续挑战" after a battle,
/// "放弃并结算" to give up, "下一页" for the statistics and "返回货币战争" to
/// return to the event.
pub open spec fn button_labels(p: Phase) -> Seq<Seq<char>> {
    match p {
        Phase::SeeStart => seq!["货币战争"@],
        Phase::WaitGameMode => seq!["结束并结算"@, "进入标准博弈"@],
        Phase::WaitDifficulty => seq!["开始对局"@],
        Phase::SaveBoss => seq!["下一步"@],
        Phase::WaitPlane => seq!["点击空白处继续"@],
        Phase::EnvSaveBeforeConfirm => seq!["确认"@],
        Phase::PickSaveConfirm => seq!["确认"@],
        Phase::StratSpecial => seq!["出战"@],
        Phase::StratWaitPrepSecond => seq!["出战"@],
        Phase::StratWaitSettle => seq!["继续挑战"@],
        Phase::ExitWaitConfirm => seq!["放弃并结算"@],
        Phase::ExitWaitFail => seq!["下一步"@],
        Phase::ExitWaitStats => seq!["下一页"@],
        Phase::ExitWaitReturn => seq!["返回货币战争"@],
        _ => Seq::empty(),
    }
}

proof fn lemma_tap_labels(m: MachineView, sid: Option<usize>, tapped: bool, failed: bool, pick: int)
    requires
        button_labels(m.phase).len() > 0,
        forall|k: int| 0 <= k < m.seen.len() ==> #[trigger] m.seen[k].len() <= usize::MAX,
        sid matches Some(id) ==> id < m.seen.len(),
        m.page < m.seen.len(),
        m.phase == Phase::StratSpecial ==> m.prep_page < m.seen.len(),
    ensures
        ({
            let (m2, a) = early(m, sid, tapped, failed, pick);
            a matches ActionView::Tap { obs, element, after_ms } ==> m2.seen == m.seen && obs < m.seen.len() && element
                < m.seen[obs as int].len() && exists|l: int| 0 <= l < button_labels(m.phase).len() && has_sub(
                m.seen[obs as int][element as int].text@,
                #[trigger] button_labels(m.phase)[l],
            )
        }),
{
    let w = m.width as int;
    let h = m.height as int;
    let labels = button_labels(m.phase);
    let (m2, a) = early(m, sid, tapped, failed, pick);
    match m.phase {
        Phase::SeeStart => {
            if let Some(id) = sid {
                crate::pages::law_button_box_shows_its_label(Button::StartRun, m.seen[id as int], w, h);
            }
            if let ActionView::Tap { obs, element, after_ms } = a {
                assert(has_sub(m.seen[obs as int][element as int].text@, labels[0]));
            }
        },
        Phase::WaitGameMode => {
            if let Some(id) = sid {
                crate::pages::law_button_box_shows_its_label(Button::EndAndSettle, m.seen[id as int], w, h);
                crate::pages::law_button_box_shows_its_label(Button::EnterStandard, m.seen[id as int], w, h);
            }
            if let ActionView::Tap { obs, element, after_ms } = a {
                let t = m.seen[obs as int][element as int].text@;
                assert(has_sub(t, labels[0]) || has_sub(t, labels[1]));
            }
        },
        Phase::WaitDifficulty => {
            if let Some(id) = sid {
                crate::pages::law_button_box_shows_its_label(Button::StartBattle, m.seen[id as int], w, h);
            }
            if let ActionView::Tap { obs, element, after_ms } = a {
                assert(has_sub(m.seen[obs as int][element as int].text@, labels[0]));
            }
        },
        Phase::SaveBoss => {
            crate::pages::law_button_box_shows_its_label(Button::NextStep, m.seen[m.page as int], w, h);
            if let ActionView::Tap { obs, element, after_ms } = a {
                assert(has_sub(m.seen[obs as int][element as int].text@, labels[0]));
            }
        },
        Phase::WaitPlane => {
            if let Some(id) = sid {
                crate::pages::law_button_box_shows_its_label(Button::BlankContinue, m.seen[id as int], w, h);
            }
            if let ActionView::Tap { obs, element, after_ms } = a {
                assert(has_sub(m.seen[obs as int][element as int].text@, labels[0]));
            }
        },
        Phase::EnvSaveBeforeConfirm => {
            crate::pages::law_button_box_shows_its_label(Button::Confirm, m.seen[m.page as int], w, h);
            if let ActionView::Tap { obs, element, after_ms } = a {
                assert(has_sub(m.seen[obs as int][element as int].text@, labels[0]));
            }
        },
        Phase::PickSaveConfirm => {
            crate::pages::law_button_box_shows_its_label(Button::Confirm, m.seen[m.page as int], w, h);
            if let ActionView::Tap { obs, element, after_ms } = a {
                assert(has_sub(m.seen[obs as int][element as int].text@, labels[0]));
            }
        },
        Phase::StratSpecial => {
            crate::pages::law_button_box_shows_its_label(Button::Battle, m.seen[m.prep_page as int], w, h);
            if let ActionView::Tap { obs, element, after_ms } = a {
                assert(has_sub(m.seen[obs as int][element as int].text@, labels[0]));
            }
        },
        Phase::StratWaitPrepSecond => {
            if let Some(id) = sid {
                crate::pages::law_button_box_shows_its_label(Button::Battle, m.seen[id as int], w, h);
            }
            if let ActionView::Tap { obs, element, after_ms } = a {
                assert(has_sub(m.seen[obs as int][element as int].text@, labels[0]));
            }
        },
        Phase::StratWaitSettle => {
            if let Some(id) = sid {
                crate::pages::law_button_box_shows_its_label(Button::ContinueChallenge, m.seen[id as int], w, h);
            }
            if let ActionView::Tap { obs, element, after_ms } = a {
                assert(has_sub(m.seen[obs as int][element as int].text@, labels[0]));
            }
        },
        Phase::ExitWaitConfirm => {
            if let Some(id) = sid {
                crate::pages::law_button_box_shows_its_label(Button::GiveUpAndSettle, m.seen[id as int], w, h);
            }
            if let ActionView::Tap { obs, element, after_ms } = a {
                assert(has_sub(m.seen[obs as int][element as int].text@, labels[0]));
            }
        },
        Phase::ExitWaitFail => {
            if let Some(id) = sid {
                crate::pages::law_button_box_shows_its_label(Button::NextStep, m.seen[id as int], w, h);
            }
            if let ActionView::Tap { obs, element, after_ms } = a {
                assert(has_sub(m.seen[obs as int][element as int].text@, labels[0]));
            }
        },
        Phase::ExitWaitStats => {
            if let Some(id) = sid {
                crate::pages::law_button_box_shows_its_label(Button::NextPage, m.seen[id as int], w, h);
            }
            if let ActionView::Tap { obs, element, after_ms } = a {
                assert(has_sub(m.seen[obs as int][element as int].text@, labels[0]));
            }
        },
        Phase::ExitWaitReturn => {
            if let Some(id) = sid {
                crate::pages::law_button_box_shows_its_label(Button::ReturnToEvent, m.seen[id as int], w, h);
            }
            if let ActionView::Tap { obs, element, after_ms } = a {
                assert(has_sub(m.seen[obs as int][element as int].text@, labels[0]));
            }
        },
        _ => {},
    }
}

/// Where a step taps a button, the box tapped shows the button's label for
/// that step (see [`button_labels`]).
pub proof fn law_tapped_buttons_show_their_labels(m: MachineView, e: Event, pick: int)
    requires
        button_labels(m.phase).len() > 0,
        forall|k: int| 0 <= k < m.seen.len() ==> #[trigger] m.seen[k].len() <= usize::MAX,
        e matches Event::Seen(v) ==> v@.len() <= usize::MAX,
        m.seen.len() < usize::MAX,
        m.page < m.seen.len(),
        m.phase == Phase::StratSpecial ==> m.prep_page < m.seen.len(),
    ensures
        ({
            let (m2, a) = next(m, e, pick);
            a matches ActionView::Tap { obs, element, after_ms } ==> obs < m2.seen.len() && element < m2.seen[obs as int].len()
                && exists|l: int| 0 <= l < button_labels(m.phase).len() && has_sub(
                m2.seen[obs as int][element as int].text@,
                #[trigger] button_labels(m.phase)[l],
            )
        }),
{
    let tapped = e == Event::Tapped(true);
    let failed = e is Failed;
    match e {
        Event::Seen(v) => {
            let id = m.seen.len() as usize;
            let m1 = MachineView { seen: m.seen.push(v@), ..m };
            assert(next(m, e, pick) == early(m1, Some(id), false, false, pick));
            assert forall|k: int| 0 <= k < m1.seen.len() implies #[trigger] m1.seen[k].len() <= usize::MAX by {
                if k < m.seen.len() {
                    assert(m1.seen[k] == m.seen[k]);
                }
            }
            lemma_tap_labels(m1, Some(id), false, false, pick);
        },
        _ => {
            assert(next(m, e, pick) == early(m, None, tapped, failed, pick));
            lemma_tap_labels(m, None, tapped, failed, pick);
        },
    }
}

} // verus!
