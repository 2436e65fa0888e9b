use srcwroller::pages::{
    boss_affixes, detect_page, environment_cards, game_mode_state, locate_button, refresh_count, strategy_cards,
    strategy_refresh_buttons, Button, Page, TextBox, STATE_IN_PROGRESS, STATE_NEW_GAME,
};

fn tb(text: &str, x: i32, y: i32) -> TextBox {
    TextBox { text: text.to_string(), x, y }
}

const W: i32 = 1920;
const H: i32 = 1080;

#[test]
fn start_page_needs_both_words_in_one_box() {
    assert!(detect_page(Page::Start, &[tb("开始货币战争", 1800, 950)], W, H));
    assert!(!detect_page(Page::Start, &[tb("开始", 1800, 950), tb("货币战争", 1700, 950)], W, H));
    assert!(!detect_page(Page::Start, &[], W, H));
}

#[test]
fn game_mode_reads_joined_text() {
    assert!(detect_page(Page::GameMode, &[tb("进入标准", 1500, 900), tb("博弈", 1700, 900)], W, H));
    assert_eq!(game_mode_state(&[tb("进入标准博弈", 1500, 900)]), Some(STATE_NEW_GAME));
    assert_eq!(game_mode_state(&[tb("结束并结算", 1500, 900), tb("继续进度", 1700, 900)]), Some(STATE_IN_PROGRESS));
    assert_eq!(game_mode_state(&[tb("进入标准博弈", 1500, 900), tb("继续进度", 1700, 900)]), Some(STATE_IN_PROGRESS));
    assert_eq!(game_mode_state(&[tb("结束并结算", 1500, 900)]), None);
}

#[test]
fn preparation_page_needs_labels_in_their_corners() {
    let ok = [tb("备战阶段", 100, 50), tb("商店", 1500, 800)];
    assert!(detect_page(Page::Preparation, &ok, W, H));
    let shop_too_far_left = [tb("备战阶段", 100, 50), tb("商店", 1000, 800)];
    assert!(!detect_page(Page::Preparation, &shop_too_far_left, W, H));
    assert!(detect_page(Page::Shop, &[tb("备战阶段", 100, 50), tb("刷新", 900, 900)], W, H));
}

#[test]
fn other_pages_are_recognised() {
    assert!(detect_page(Page::Difficulty, &[tb("开始对局", 1700, 950)], W, H));
    assert!(detect_page(Page::BossAffix, &[tb("本场对局首领", 500, 750), tb("敌人难度", 300, 756), tb("下一步", 1700, 950)], W, H));
    assert!(detect_page(Page::PlaneSelect, &[tb("点击空白处继续", 960, 1000)], W, H));
    assert!(detect_page(Page::InvestEnvironment, &[tb("投资环境", 960, 100), tb("确认", 960, 950)], W, H));
    assert!(detect_page(Page::InvestStrategy, &[tb("请选择投资策略", 960, 100), tb("确认", 960, 950)], W, H));
    assert!(!detect_page(Page::InvestStrategy, &[tb("请选择投资策略", 960, 100), tb("确认", 960, 500)], W, H));
    assert!(detect_page(Page::ExitConfirm, &[tb("提示", 960, 300), tb("放弃并结算", 700, 700)], W, H));
    assert!(detect_page(Page::ExitChallengeFail, &[tb("挑战失败", 960, 300), tb("下一步", 960, 900)], W, H));
    assert!(detect_page(Page::ExitStats, &[tb("对局未完成", 600, 300), tb("下一页", 900, 900)], W, H));
    assert!(detect_page(Page::ExitReturn, &[tb("返回货币战争", 960, 950)], W, H));
    assert!(detect_page(Page::BattleSettlement, &[tb("挑战成功", 960, 100), tb("继续挑战", 960, 950)], W, H));
}

#[test]
fn buttons_are_found_in_their_zone() {
    let page = [tb("确认", 960, 500), tb("确认", 960, 900)];
    assert_eq!(locate_button(Button::Confirm, &page, W, H), Some(1));
    let prep = [tb("出战", 1000, 700), tb("出战", 1700, 750)];
    assert_eq!(locate_button(Button::Battle, &prep, W, H), Some(1));
    assert_eq!(locate_button(Button::NextPage, &prep, W, H), None);
    let dialog = [tb("放弃并结算", 960, 800)];
    assert_eq!(locate_button(Button::GiveUpAndSettle, &dialog, W, H), Some(0));
}

#[test]
fn boss_affixes_line_up_with_the_difficulty_label() {
    let elems = [
        tb("变宝为废", 500, 760),
        tb("12", 600, 760),
        tb("敌人难度", 300, 756),
        tb("右边的词条", 1500, 760),
        tb("A", 400, 760),
        tb("下方的词条", 400, 1000),
    ];
    assert_eq!(boss_affixes(&elems, W, H), vec!["变宝为废".to_string()]);
    let no_label = [tb("轮回不止", 500, 756)];
    assert_eq!(boss_affixes(&no_label, W, H), vec!["轮回不止".to_string()]);
}

#[test]
fn cards_run_left_to_right() {
    let elems = [
        tb("彩虹时代", 1200, 380),
        tb("专家研讨会", 400, 380),
        tb("投资环境", 100, 380),
        tb("X", 50, 380),
        tb("非常非常长的环境名称啊啊", 800, 380),
        tb("确认", 960, 950),
    ];
    assert_eq!(environment_cards(&elems, H), vec![1, 0]);
    let strategies = [tb("快请专家", 900, 520), tb("轮回不止", 300, 520), tb("图例", 100, 520)];
    assert_eq!(strategy_cards(&strategies, H), vec![1, 0]);
}

#[test]
fn refresh_count_reads_the_first_number() {
    assert_eq!(refresh_count(&[tb("刷新次数：3", 1500, 900)]), 3);
    assert_eq!(refresh_count(&[tb("刷新次数", 1500, 900), tb("刷新次数 2", 1600, 900)]), 2);
    assert_eq!(refresh_count(&[tb("其他 7", 1500, 900)]), 0);
    assert_eq!(refresh_count(&[tb("刷新次数 99999999999", 1500, 900)]), 0);
    let page = [tb("刷新次数 2", 1600, 900), tb("刷新次数 1", 600, 900)];
    assert_eq!(strategy_refresh_buttons(&page), vec![1, 0]);
}
