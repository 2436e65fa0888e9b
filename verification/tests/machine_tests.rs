use srcwroller::machine::{Action, Event, Finish, RerollMachine, Shot};
use srcwroller::pages::{Page, TextBox};
use srcwroller::selection::OpeningConfig;

fn tb(text: &str, x: i32, y: i32) -> TextBox {
    TextBox { text: text.to_string(), x, y }
}

fn machine(max_retry: i32) -> RerollMachine {
    let openings = vec![OpeningConfig::new(vec!["专家研讨会".to_string()], vec!["快请专家".to_string()], vec![])];
    RerollMachine::new(openings, max_retry, vec!["彩虹时代".to_string()], 1920, 1080)
}

#[test]
fn no_attempt_allowed_finishes_at_once() {
    let mut m = machine(0);
    assert_eq!(m.step(Event::Done), Action::Finish(Finish::Exhausted));
    assert_eq!(m.step(Event::Done), Action::Finish(Finish::Exhausted));
    assert_eq!(m.tries(), 0);
}

#[test]
fn unknown_screen_is_an_error_then_the_run_stops_after_its_attempts() {
    let mut m = machine(1);
    assert_eq!(m.step(Event::Done), Action::Capture);
    assert_eq!(m.tries(), 1);
    assert_eq!(m.step(Event::Done), Action::Observe(Page::Preparation));
    assert_eq!(m.step(Event::NotSeen), Action::Observe(Page::Start));
    assert_eq!(m.step(Event::NotSeen), Action::Sleep(2000));
    assert_eq!(m.step(Event::Done), Action::Finish(Finish::Exhausted));
    assert_eq!(m.tries(), 1);
}

#[test]
fn preparation_screen_at_start_leaves_the_game() {
    let mut m = machine(2);
    assert_eq!(m.step(Event::Done), Action::Capture);
    assert_eq!(m.step(Event::Done), Action::Observe(Page::Preparation));
    assert_eq!(m.step(Event::Seen(vec![tb("备战阶段", 100, 50), tb("商店", 1500, 800)])), Action::Observe(Page::Start));
    assert_eq!(m.step(Event::NotSeen), Action::Capture);
    assert_eq!(m.step(Event::Done), Action::Observe(Page::Preparation));
    assert_eq!(m.step(Event::Seen(vec![])), Action::TapCorner { after_ms: 1000 });
    assert_eq!(m.step(Event::Tapped(true)), Action::Sleep(1000));
    assert_eq!(m.step(Event::Done), Action::Capture);
    assert_eq!(m.step(Event::Done), Action::WaitFor { page: Page::ExitConfirm, timeout_s: 5, poll_ms: 500 });
    assert_eq!(m.step(Event::TimedOut), Action::WaitFor { page: Page::ExitChallengeFail, timeout_s: 10, poll_ms: 500 });
    assert_eq!(m.step(Event::TimedOut), Action::WaitFor { page: Page::ExitStats, timeout_s: 10, poll_ms: 500 });
    assert_eq!(m.step(Event::TimedOut), Action::Capture);
    assert_eq!(m.step(Event::Done), Action::WaitFor { page: Page::ExitReturn, timeout_s: 5, poll_ms: 500 });
    // the attempt is retried at once
    assert_eq!(m.step(Event::TimedOut), Action::Capture);
    assert_eq!(m.tries(), 2);
}

#[test]
fn a_run_that_finds_the_wanted_environment_and_strategy_succeeds() {
    let mut m = machine(3);
    let prep = vec![tb("备战阶段", 100, 50), tb("商店", 1500, 800), tb("出战", 1700, 750)];
    assert_eq!(m.step(Event::Done), Action::Capture);
    assert_eq!(m.step(Event::Done), Action::Observe(Page::Preparation));
    assert_eq!(m.step(Event::NotSeen), Action::Observe(Page::Start));
    assert_eq!(m.step(Event::Seen(vec![tb("开始货币战争", 1800, 950)])), Action::Tap { obs: 0, element: 0, after_ms: 2000 });
    assert_eq!(m.step(Event::Tapped(true)), Action::WaitFor { page: Page::GameMode, timeout_s: 10, poll_ms: 1500 });
    assert_eq!(m.step(Event::Seen(vec![tb("进入标准博弈", 1700, 950)])), Action::Tap { obs: 1, element: 0, after_ms: 2000 });
    assert_eq!(m.step(Event::Tapped(true)), Action::WaitFor { page: Page::Difficulty, timeout_s: 10, poll_ms: 1500 });
    assert_eq!(m.step(Event::Seen(vec![tb("开始对局", 1700, 950)])), Action::Tap { obs: 2, element: 0, after_ms: 2000 });
    assert_eq!(m.step(Event::Tapped(true)), Action::WaitFor { page: Page::BossAffix, timeout_s: 10, poll_ms: 1500 });
    let boss = vec![tb("本场对局首领", 500, 700), tb("敌人难度", 300, 756), tb("变宝为废", 500, 760), tb("下一步", 1700, 950)];
    assert_eq!(m.step(Event::Seen(boss)), Action::SaveOpening(Shot::BossDetected));
    assert_eq!(m.step(Event::Done), Action::Tap { obs: 3, element: 3, after_ms: 2000 });
    assert_eq!(m.step(Event::Tapped(true)), Action::Sleep(3000));
    assert_eq!(m.step(Event::Done), Action::WaitFor { page: Page::PlaneSelect, timeout_s: 10, poll_ms: 1500 });
    assert_eq!(m.step(Event::Seen(vec![tb("点击空白处继续", 960, 1000)])), Action::Tap { obs: 4, element: 0, after_ms: 2000 });
    assert_eq!(m.step(Event::Tapped(true)), Action::WaitFor { page: Page::Preparation, timeout_s: 10, poll_ms: 500 });
    assert_eq!(m.step(Event::TimedOut), Action::WaitFor { page: Page::InvestEnvironment, timeout_s: 10, poll_ms: 500 });
    let env = vec![tb("彩虹时代", 1200, 380), tb("专家研讨会", 400, 380), tb("确认", 960, 950)];
    assert_eq!(m.step(Event::Seen(env)), Action::Tap { obs: 5, element: 1, after_ms: 1000 });
    assert_eq!(m.active_count(), 1);
    assert_eq!(m.step(Event::Tapped(true)), Action::SaveOpening(Shot::EnvironmentBeforeConfirm));
    assert_eq!(m.step(Event::Done), Action::Tap { obs: 5, element: 2, after_ms: 1000 });
    assert_eq!(m.step(Event::Tapped(true)), Action::Sleep(2000));
    assert_eq!(m.step(Event::Done), Action::Sleep(2000));
    assert_eq!(m.step(Event::Done), Action::WaitFor { page: Page::Preparation, timeout_s: 10, poll_ms: 500 });
    assert_eq!(m.step(Event::Seen(prep.clone())), Action::WaitFor { page: Page::Preparation, timeout_s: 15, poll_ms: 500 });
    assert_eq!(m.step(Event::Seen(prep.clone())), Action::DragCard(0));
    for card in 1..4 {
        assert_eq!(m.step(Event::Done), Action::Sleep(500));
        assert_eq!(m.step(Event::Done), Action::HandleSpecialEvents);
        assert_eq!(m.step(Event::Done), Action::DragCard(card));
    }
    assert_eq!(m.step(Event::Done), Action::Sleep(500));
    assert_eq!(m.step(Event::Done), Action::HandleSpecialEvents);
    assert_eq!(m.step(Event::Done), Action::Tap { obs: 7, element: 2, after_ms: 2000 });
    assert_eq!(m.step(Event::Tapped(true)), Action::DismissNotEnoughDialog);
    assert_eq!(m.step(Event::Done), Action::WaitFor { page: Page::BattleSettlement, timeout_s: 600, poll_ms: 2000 });
    let settle = vec![tb("挑战成功", 960, 100), tb("继续挑战", 960, 950)];
    assert_eq!(m.step(Event::Seen(settle.clone())), Action::Tap { obs: 8, element: 1, after_ms: 2000 });
    assert_eq!(m.step(Event::Tapped(true)), Action::WaitFor { page: Page::Shop, timeout_s: 10, poll_ms: 500 });
    assert_eq!(m.step(Event::Seen(vec![])), Action::PressBack);
    assert_eq!(m.step(Event::Done), Action::WaitFor { page: Page::Preparation, timeout_s: 15, poll_ms: 500 });
    assert_eq!(m.step(Event::Seen(prep.clone())), Action::Tap { obs: 10, element: 2, after_ms: 2000 });
    assert_eq!(m.step(Event::Tapped(true)), Action::DismissNotEnoughDialog);
    assert_eq!(m.step(Event::Done), Action::WaitFor { page: Page::BattleSettlement, timeout_s: 600, poll_ms: 2000 });
    assert_eq!(m.step(Event::Seen(settle)), Action::Tap { obs: 11, element: 1, after_ms: 2000 });
    assert_eq!(m.step(Event::Tapped(true)), Action::WaitFor { page: Page::InvestStrategy, timeout_s: 30, poll_ms: 500 });
    let strategy = vec![tb("轮回不止", 1200, 520), tb("快请专家", 400, 520), tb("确认", 960, 950)];
    assert_eq!(m.step(Event::Seen(strategy)), Action::Tap { obs: 12, element: 1, after_ms: 1000 });
    assert_eq!(m.step(Event::Tapped(true)), Action::Sleep(3500));
    assert_eq!(m.step(Event::Done), Action::SaveOpening(Shot::StrategyBeforeConfirm));
    assert_eq!(m.step(Event::Done), Action::Tap { obs: 12, element: 2, after_ms: 2000 });
    assert_eq!(m.step(Event::Tapped(true)), Action::Sleep(5000));
    assert_eq!(m.step(Event::Done), Action::Capture);
    assert_eq!(m.step(Event::Done), Action::Observe(Page::InvestStrategy));
    assert_eq!(m.step(Event::NotSeen), Action::Observe(Page::Shop));
    assert_eq!(m.step(Event::Seen(vec![])), Action::PressBack);
    assert_eq!(m.step(Event::Done), Action::Finish(Finish::Success));
    assert_eq!(m.active_count(), 1);
    assert_eq!(m.tries(), 1);
}

#[test]
fn an_unwanted_boss_ends_the_attempt_before_the_battles() {
    let openings = vec![OpeningConfig::new(vec![], vec![], vec!["变宝为废".to_string()])];
    let mut m = RerollMachine::new(openings, 1, vec![], 1920, 1080);
    assert_eq!(m.step(Event::Done), Action::Capture);
    m.step(Event::Done);
    m.step(Event::NotSeen);
    m.step(Event::Seen(vec![tb("开始货币战争", 1800, 950)]));
    m.step(Event::Tapped(true));
    m.step(Event::Seen(vec![tb("进入标准博弈", 1700, 950)]));
    m.step(Event::Tapped(true));
    m.step(Event::Seen(vec![tb("开始对局", 1700, 950)]));
    m.step(Event::Tapped(true));
    let boss = vec![tb("本场对局首领", 500, 700), tb("敌人难度", 300, 756), tb("轮回不止", 500, 760), tb("下一步", 1700, 950)];
    assert_eq!(m.step(Event::Seen(boss)), Action::SaveOpening(Shot::BossDetected));
    assert_eq!(m.step(Event::Done), Action::Tap { obs: 3, element: 3, after_ms: 2000 });
    assert_eq!(m.active_count(), 0);
    m.step(Event::Tapped(true));
    m.step(Event::Done);
    m.step(Event::Seen(vec![tb("点击空白处继续", 960, 1000)]));
    m.step(Event::Tapped(true));
    assert_eq!(m.step(Event::Seen(vec![])), Action::WaitFor { page: Page::Preparation, timeout_s: 15, poll_ms: 500 });
    assert_eq!(m.step(Event::Seen(vec![])), Action::TapCorner { after_ms: 1000 });
    assert_eq!(m.step(Event::Tapped(true)), Action::Capture);
}

#[test]
fn wanted_openings_only_narrow_within_an_attempt_and_come_back_with_the_next() {
    let openings = vec![
        OpeningConfig::new(vec!["专家研讨会".to_string()], vec![], vec![]),
        OpeningConfig::new(vec!["特邀专家".to_string()], vec![], vec![]),
    ];
    let mut m = RerollMachine::new(openings, 2, vec![], 1920, 1080);
    let events = vec![
        Event::Done,
        Event::Done,
        Event::NotSeen,
        Event::Seen(vec![tb("开始货币战争", 1800, 950)]),
        Event::Tapped(true),
        Event::Seen(vec![tb("进入标准博弈", 1700, 950)]),
        Event::Tapped(true),
        Event::Seen(vec![tb("开始对局", 1700, 950)]),
        Event::Tapped(true),
        Event::Seen(vec![tb("本场对局首领", 500, 700), tb("敌人难度", 300, 756), tb("下一步", 1700, 950)]),
        Event::Done,
        Event::Tapped(true),
        Event::Done,
        Event::Seen(vec![tb("点击空白处继续", 960, 1000)]),
        Event::Tapped(true),
        Event::TimedOut,
        Event::Seen(vec![tb("专家研讨会", 400, 380), tb("确认", 960, 950)]),
        Event::Tapped(true),
        Event::Done,
        Event::Tapped(true),
        Event::Done,
        Event::Done,
        Event::TimedOut,
    ];
    let mut count = m.active_count();
    let mut tries = m.tries();
    let mut narrowed = false;
    for e in events {
        m.step(e);
        if m.tries() == tries {
            assert!(m.active_count() <= count);
            narrowed = narrowed || m.active_count() < count;
        }
        count = m.active_count();
        tries = m.tries();
    }
    assert!(narrowed);
    assert_eq!(m.tries(), 1);
    assert_eq!(m.active_count(), 1);
    // the attempt ends without the preparation screen and the next one starts afresh
    assert_eq!(m.step(Event::TimedOut), Action::Capture);
    assert_eq!(m.tries(), 2);
    assert_eq!(m.active_count(), 2);
}
