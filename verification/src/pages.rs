//! Recognition of the game's screens from the text found on them, where the
//! buttons are, and what the selection screens offer.
//!
//! Positions are pixel centres; a screen-relative bound such as "in the
//! lower fifth" is a bound in thousandths of the screen size, compared
//! exactly by cross-multiplication (`1000 * x >= 800 * width`).

use vstd::prelude::*;
use crate::text::{has_sub, str_contains};

verus! {

broadcast use vstd::seq_lib::group_seq_properties;

/// A piece of recognised text and the pixel at its centre.
#[derive(Debug, Clone)]
pub struct TextBox {
    pub text: String,
    pub x: i32,
    pub y: i32,
}

/// A bound on one coordinate, in thousandths of the screen size.
#[derive(Debug, Clone, Copy)]
pub enum Bound {
    Any,
    AtLeast(i32),
    Above(i32),
    AtMost(i32),
    Below(i32),
}

/// A part of the screen: bounds on both coordinates.
#[derive(Debug, Clone, Copy)]
pub struct Zone {
    pub x_min: Bound,
    pub x_max: Bound,
    pub y_min: Bound,
    pub y_max: Bound,
}

/// The coordinate `v` on an axis of `size` pixels meets the bound `b`.
pub open spec fn within(v: int, size: int, b: Bound) -> bool {
    match b {
        Bound::Any => true,
        Bound::AtLeast(p) => v * 1000 >= p * size,
        Bound::Above(p) => v * 1000 > p * size,
        Bound::AtMost(p) => v * 1000 <= p * size,
        Bound::Below(p) => v * 1000 < p * size,
    }
}

pub open spec fn in_zone(b: TextBox, z: Zone, w: int, h: int) -> bool {
    &&& within(b.x as int, w, z.x_min)
    &&& within(b.x as int, w, z.x_max)
    &&& within(b.y as int, h, z.y_min)
    &&& within(b.y as int, h, z.y_max)
}

/// Every one of `kws` occurs in `text`.
pub open spec fn all_occur(text: Seq<char>, kws: Seq<Seq<char>>) -> bool {
    forall|k: int| 0 <= k < kws.len() ==> has_sub(text, #[trigger] kws[k])
}

/// The box holds every keyword and lies in the zone.
pub open spec fn box_matches(b: TextBox, kws: Seq<Seq<char>>, z: Zone, w: int, h: int) -> bool {
    all_occur(b.text@, kws) && in_zone(b, z, w, h)
}

/// `r` is the first box that matches, or `None` when none does.
pub open spec fn is_first_box(elems: Seq<TextBox>, kws: Seq<Seq<char>>, z: Zone, w: int, h: int, r: Option<usize>) -> bool {
    match r {
        Some(i) => i < elems.len() && box_matches(elems[i as int], kws, z, w, h) && forall|k: int|
            0 <= k < i ==> !box_matches(#[trigger] elems[k], kws, z, w, h),
        None => forall|k: int| 0 <= k < elems.len() ==> !box_matches(#[trigger] elems[k], kws, z, w, h),
    }
}

/// Some box matches.
pub open spec fn any_box(elems: Seq<TextBox>, kws: Seq<Seq<char>>, z: Zone, w: int, h: int) -> bool {
    exists|k: int| 0 <= k < elems.len() && box_matches(#[trigger] elems[k], kws, z, w, h)
}

/// The texts of `elems` one after another, with nothing between them.
pub open spec fn joined(elems: Seq<TextBox>) -> Seq<char>
    decreases elems.len(),
{
    if elems.len() == 0 {
        Seq::empty()
    } else {
        joined(elems.drop_last()) + elems.last().text@
    }
}

pub open spec fn strs_of(kws: Seq<&str>) -> Seq<Seq<char>> {
    kws.map_values(|s: &str| s@)
}

pub open spec fn anywhere() -> Zone {
    Zone { x_min: Bound::Any, x_max: Bound::Any, y_min: Bound::Any, y_max: Bound::Any }
}

fn zone_anywhere() -> (z: Zone)
    ensures
        z == anywhere(),
{
    Zone { x_min: Bound::Any, x_max: Bound::Any, y_min: Bound::Any, y_max: Bound::Any }
}

fn product(a: i32, b: i32) -> (r: i64)
    ensures
        r == a * b,
{
    proof {
        assert(-0x4000_0000_0000_0000 <= (a as int) * (b as int) <= 0x4000_0000_0000_0000) by (nonlinear_arith)
            requires
                -0x8000_0000 <= a <= 0x7fff_ffff,
                -0x8000_0000 <= b <= 0x7fff_ffff,
        ;
    }
    (a as i64) * (b as i64)
}

fn check_bound(v: i32, size: i32, b: Bound) -> (r: bool)
    ensures
        r == within(v as int, size as int, b),
{
    let lhs: i64 = (v as i64) * 1000;
    match b {
        Bound::Any => true,
        Bound::AtLeast(p) => lhs >= product(p, size),
        Bound::Above(p) => lhs > product(p, size),
        Bound::AtMost(p) => lhs <= product(p, size),
        Bound::Below(p) => lhs < product(p, size),
    }
}

fn box_in_zone(b: &TextBox, z: Zone, w: i32, h: i32) -> (r: bool)
    ensures
        r == in_zone(*b, z, w as int, h as int),
{
    check_bound(b.x, w, z.x_min) && check_bound(b.x, w, z.x_max) && check_bound(b.y, h, z.y_min) && check_bound(
        b.y,
        h,
        z.y_max,
    )
}

fn holds_all(text: &String, kws: &[&str]) -> (r: bool)
    ensures
        r == all_occur(text@, strs_of(kws@)),
{
    let mut k: usize = 0;
    while k < kws.len()
        invariant
            k <= kws@.len(),
            forall|m: int| 0 <= m < k ==> has_sub(text@, #[trigger] strs_of(kws@)[m]),
        decreases kws@.len() - k,
    {
        if !str_contains(text.as_str(), kws[k]) {
            assert(!has_sub(text@, strs_of(kws@)[k as int]));
            return false;
        }
        k = k + 1;
    }
    true
}

/// The first box that holds every keyword of `kws` and lies in `zone`.
pub fn find_box(elems: &[TextBox], kws: &[&str], zone: Zone, w: i32, h: i32) -> (r: Option<usize>)
    ensures
        is_first_box(elems@, strs_of(kws@), zone, w as int, h as int, r),
{
    let mut i: usize = 0;
    while i < elems.len()
        invariant
            i <= elems@.len(),
            forall|k: int| 0 <= k < i ==> !box_matches(#[trigger] elems@[k], strs_of(kws@), zone, w as int, h as int),
        decreases elems@.len() - i,
    {
        if holds_all(&elems[i].text, kws) && box_in_zone(&elems[i], zone, w, h) {
            return Some(i);
        }
        i = i + 1;
    }
    None
}

proof fn lemma_first_box_any(elems: Seq<TextBox>, kws: Seq<Seq<char>>, z: Zone, w: int, h: int, r: Option<usize>)
    requires
        is_first_box(elems, kws, z, w, h, r),
    ensures
        r is Some <==> any_box(elems, kws, z, w, h),
{
}

/// Whether some box holds every keyword of `kws` and lies in `zone`.
pub fn some_box(elems: &[TextBox], kws: &[&str], zone: Zone, w: i32, h: i32) -> (r: bool)
    ensures
        r == any_box(elems@, strs_of(kws@), zone, w as int, h as int),
{
    let f = find_box(elems, kws, zone, w, h);
    proof {
        lemma_first_box_any(elems@, strs_of(kws@), zone, w as int, h as int, f);
    }
    f.is_some()
}

/// All texts one after another.
pub fn joined_text(elems: &[TextBox]) -> (r: String)
    ensures
        r@ == joined(elems@),
{
    let mut r = String::new();
    let mut i: usize = 0;
    assert(elems@.take(0) =~= Seq::<TextBox>::empty());
    while i < elems.len()
        invariant
            i <= elems@.len(),
            r@ == joined(elems@.take(i as int)),
        decreases elems@.len() - i,
    {
        r.append(elems[i].text.as_str());
        assert(elems@.take(i + 1).drop_last() =~= elems@.take(i as int));
        i = i + 1;
    }
    assert(elems@.take(elems@.len() as int) =~= elems@);
    r
}


/// Whether `kw` occurs in all texts taken together.
fn joined_holds(all: &String, kw: &str) -> (r: bool)
    ensures
        r == has_sub(all@, kw@),
{
    str_contains(all.as_str(), kw)
}

/// The screens of the game that the run recognises.
#[derive(Debug, Clone, Copy, PartialEq, Eq)]
pub enum Page {
    Start,
    GameMode,
    Difficulty,
    BossAffix,
    PlaneSelect,
    InvestEnvironment,
    Preparation,
    Shop,
    InvestStrategy,
    ExitConfirm,
    ExitChallengeFail,
    ExitStats,
    ExitReturn,
    BattleSettlement,
}

pub open spec fn zone_xy(x_min: Bound, x_max: Bound, y_min: Bound, y_max: Bound) -> Zone {
    Zone { x_min, x_max, y_min, y_max }
}

pub open spec fn one(k: Seq<char>) -> Seq<Seq<char>> {
    seq![k]
}

/// What the text on the screen must show for it to be `p`.
pub open spec fn page_shown(p: Page, elems: Seq<TextBox>, w: int, h: int) -> bool {
    let all = joined(elems);
    let any = |k: Seq<char>| any_box(elems, one(k), anywhere(), w, h);
    match p {
        Page::Start => any_box(elems, seq!["开始"@, "货币战争"@], anywhere(), w, h),
        Page::GameMode => has_sub(all, "进入标准博弈"@) || (has_sub(all, "结束并结算"@) && has_sub(all, "继续进度"@)),
        Page::Difficulty => any("开始对局"@),
        Page::BossAffix => has_sub(all, "本场对局首领"@) && has_sub(all, "下一步"@) && has_sub(all, "敌人难度"@),
        Page::PlaneSelect => any("点击空白处继续"@),
        Page::InvestEnvironment => has_sub(all, "投资环境"@) && has_sub(all, "确认"@),
        Page::Preparation => any_box(
            elems,
            one("备战阶段"@),
            zone_xy(Bound::Any, Bound::Below(300), Bound::Any, Bound::Below(200)),
            w,
            h,
        ) && any_box(elems, one("商店"@), zone_xy(Bound::Above(700), Bound::Any, Bound::Above(600), Bound::Any), w, h),
        Page::Shop => any("备战阶段"@) && any("刷新"@),
        Page::InvestStrategy => any("请选择投资策略"@) && any_box(
            elems,
            one("确认"@),
            zone_xy(Bound::Any, Bound::Any, Bound::Above(800), Bound::Any),
            w,
            h,
        ),
        Page::ExitConfirm => has_sub(all, "提示"@) && has_sub(all, "放弃并结算"@),
        Page::ExitChallengeFail => has_sub(all, "挑战失败"@) && has_sub(all, "下一步"@),
        Page::ExitStats => has_sub(all, "对局未完成"@) && has_sub(all, "下一页"@),
        Page::ExitReturn => any("返回货币战争"@),
        Page::BattleSettlement => any("挑战成功"@) && any("继续挑战"@),
    }
}

/// Whether some box anywhere holds `kw`.
fn some_box_with(elems: &[TextBox], kw: &str, w: i32, h: i32) -> (r: bool)
    ensures
        r == any_box(elems@, one(kw@), anywhere(), w as int, h as int),
{
    let kws: [&str; 1] = [kw];
    let r = some_box(elems, &kws, zone_anywhere(), w, h);
    assert(strs_of(kws@) =~= one(kw@));
    r
}

/// Whether the text on the screen shows the page `p`; `w` and `h` are the
/// screen's size in pixels.
pub fn detect_page(p: Page, elems: &[TextBox], w: i32, h: i32) -> (r: bool)
    ensures
        r == page_shown(p, elems@, w as int, h as int),
{
    let all = joined_text(elems);
    match p {
        Page::Start => {
            let kws: [&str; 2] = ["开始", "货币战争"];
            let r = some_box(elems, &kws, zone_anywhere(), w, h);
            assert(strs_of(kws@) =~= seq!["开始"@, "货币战争"@]);
            r
        },
        Page::GameMode => joined_holds(&all, "进入标准博弈") || (joined_holds(&all, "结束并结算") && joined_holds(
            &all,
            "继续进度",
        )),
        Page::Difficulty => some_box_with(elems, "开始对局", w, h),
        Page::BossAffix => joined_holds(&all, "本场对局首领") && joined_holds(&all, "下一步") && joined_holds(
            &all,
            "敌人难度",
        ),
        Page::PlaneSelect => some_box_with(elems, "点击空白处继续", w, h),
        Page::InvestEnvironment => joined_holds(&all, "投资环境") && joined_holds(&all, "确认"),
        Page::Preparation => {
            let k1: [&str; 1] = ["备战阶段"];
            let k2: [&str; 1] = ["商店"];
            assert(strs_of(k1@) =~= one("备战阶段"@));
            assert(strs_of(k2@) =~= one("商店"@));
            let z1 = Zone { x_min: Bound::Any, x_max: Bound::Below(300), y_min: Bound::Any, y_max: Bound::Below(200) };
            let z2 = Zone { x_min: Bound::Above(700), x_max: Bound::Any, y_min: Bound::Above(600), y_max: Bound::Any };
            some_box(elems, &k1, z1, w, h) && some_box(elems, &k2, z2, w, h)
        },
        Page::Shop => some_box_with(elems, "备战阶段", w, h) && some_box_with(elems, "刷新", w, h),
        Page::InvestStrategy => {
            let k: [&str; 1] = ["确认"];
            assert(strs_of(k@) =~= one("确认"@));
            let z = Zone { x_min: Bound::Any, x_max: Bound::Any, y_min: Bound::Above(800), y_max: Bound::Any };
            some_box_with(elems, "请选择投资策略", w, h) && some_box(elems, &k, z, w, h)
        },
        Page::ExitConfirm => joined_holds(&all, "提示") && joined_holds(&all, "放弃并结算"),
        Page::ExitChallengeFail => joined_holds(&all, "挑战失败") && joined_holds(&all, "下一步"),
        Page::ExitStats => joined_holds(&all, "对局未完成") && joined_holds(&all, "下一页"),
        Page::ExitReturn => some_box_with(elems, "返回货币战争", w, h),
        Page::BattleSettlement => some_box_with(elems, "挑战成功", w, h) && some_box_with(elems, "继续挑战", w, h),
    }
}

/// The game-mode screen offers a new game.
pub const STATE_NEW_GAME: i32 = 1;

/// The game-mode screen shows a game in progress.
pub const STATE_IN_PROGRESS: i32 = 2;

/// The state the game-mode screen shows: in progress when it offers to end
/// and settle or to continue, otherwise a new game.
pub open spec fn game_mode_spec(elems: Seq<TextBox>) -> Option<i32> {
    let all = joined(elems);
    if page_shown(Page::GameMode, elems, 0, 0) {
        if has_sub(all, "结束并结算"@) || has_sub(all, "继续进度"@) {
            Some(STATE_IN_PROGRESS)
        } else {
            Some(STATE_NEW_GAME)
        }
    } else {
        None
    }
}

/// The state of the game-mode screen, or `None` when the text is not that screen.
pub fn game_mode_state(elems: &[TextBox]) -> (r: Option<i32>)
    ensures
        r == game_mode_spec(elems@),
{
    let all = joined_text(elems);
    let has_enter = joined_holds(&all, "进入标准博弈");
    let has_end = joined_holds(&all, "结束并结算");
    let has_continue = joined_holds(&all, "继续进度");
    if has_enter || (has_end && has_continue) {
        if has_end || has_continue {
            Some(STATE_IN_PROGRESS)
        } else {
            Some(STATE_NEW_GAME)
        }
    } else {
        None
    }
}

/// The buttons the run presses, each found by the text it shows.
#[derive(Debug, Clone, Copy, PartialEq, Eq)]
pub enum Button {
    StartRun,
    EnterStandard,
    EndAndSettle,
    StartBattle,
    NextStep,
    BlankContinue,
    Confirm,
    Battle,
    GiveUpAndSettle,
    NextPage,
    ReturnToEvent,
    ContinueChallenge,
    RemainingRefreshes,
}

/// The keywords a button shows and the part of the screen it lies in.
pub open spec fn button_rule(b: Button) -> (Seq<Seq<char>>, Zone) {
    match b {
        Button::StartRun => (seq!["开始"@, "货币战争"@], anywhere()),
        Button::EnterStandard => (one("进入标准博弈"@), anywhere()),
        Button::EndAndSettle => (one("结束并结算"@), anywhere()),
        Button::StartBattle => (one("开始对局"@), anywhere()),
        Button::NextStep => (one("下一步"@), anywhere()),
        Button::BlankContinue => (one("点击空白处继续"@), anywhere()),
        Button::Confirm => (one("确认"@), zone_xy(Bound::Any, Bound::Any, Bound::AtLeast(800), Bound::AtMost(1000))),
        Button::Battle => (one("出战"@), zone_xy(Bound::Above(750), Bound::Any, Bound::Above(550), Bound::Below(800))),
        Button::GiveUpAndSettle => (
            one("放弃并结算"@),
            zone_xy(Bound::AtLeast(200), Bound::AtMost(800), Bound::AtLeast(600), Bound::AtMost(1000)),
        ),
        Button::NextPage => (one("下一页"@), anywhere()),
        Button::ReturnToEvent => (one("返回货币战争"@), anywhere()),
        Button::ContinueChallenge => (one("继续挑战"@), anywhere()),
        Button::RemainingRefreshes => (one("剩余次数"@), anywhere()),
    }
}

fn find_one(elems: &[TextBox], kw: &str, zone: Zone, w: i32, h: i32) -> (r: Option<usize>)
    ensures
        is_first_box(elems@, one(kw@), zone, w as int, h as int, r),
{
    let kws: [&str; 1] = [kw];
    assert(strs_of(kws@) =~= one(kw@));
    find_box(elems, &kws, zone, w, h)
}

/// The first box that shows the button `b`, if any.
pub fn locate_button(b: Button, elems: &[TextBox], w: i32, h: i32) -> (r: Option<usize>)
    ensures
        is_first_box(elems@, button_rule(b).0, button_rule(b).1, w as int, h as int, r),
        r == button_at(b, elems@, w as int, h as int),
{
    let r = find_button(b, elems, w, h);
    proof {
        lemma_first_box_is(elems@, button_rule(b).0, button_rule(b).1, w as int, h as int, r);
    }
    r
}

fn find_button(b: Button, elems: &[TextBox], w: i32, h: i32) -> (r: Option<usize>)
    ensures
        is_first_box(elems@, button_rule(b).0, button_rule(b).1, w as int, h as int, r),
{
    let any = zone_anywhere();
    match b {
        Button::StartRun => {
            let kws: [&str; 2] = ["开始", "货币战争"];
            assert(strs_of(kws@) =~= seq!["开始"@, "货币战争"@]);
            find_box(elems, &kws, any, w, h)
        },
        Button::EnterStandard => find_one(elems, "进入标准博弈", any, w, h),
        Button::EndAndSettle => find_one(elems, "结束并结算", any, w, h),
        Button::StartBattle => find_one(elems, "开始对局", any, w, h),
        Button::NextStep => find_one(elems, "下一步", any, w, h),
        Button::BlankContinue => find_one(elems, "点击空白处继续", any, w, h),
        Button::Confirm => find_one(
            elems,
            "确认",
            Zone { x_min: Bound::Any, x_max: Bound::Any, y_min: Bound::AtLeast(800), y_max: Bound::AtMost(1000) },
            w,
            h,
        ),
        Button::Battle => find_one(
            elems,
            "出战",
            Zone { x_min: Bound::Above(750), x_max: Bound::Any, y_min: Bound::Above(550), y_max: Bound::Below(800) },
            w,
            h,
        ),
        Button::GiveUpAndSettle => find_one(
            elems,
            "放弃并结算",
            Zone {
                x_min: Bound::AtLeast(200),
                x_max: Bound::AtMost(800),
                y_min: Bound::AtLeast(600),
                y_max: Bound::AtMost(1000),
            },
            w,
            h,
        ),
        Button::NextPage => find_one(elems, "下一页", any, w, h),
        Button::ReturnToEvent => find_one(elems, "返回货币战争", any, w, h),
        Button::ContinueChallenge => find_one(elems, "继续挑战", any, w, h),
        Button::RemainingRefreshes => find_one(elems, "剩余次数", any, w, h),
    }
}


/// There is at most one first matching box.
pub proof fn lemma_first_box_unique(elems: Seq<TextBox>, kws: Seq<Seq<char>>, z: Zone, w: int, h: int, i: usize, j: usize)
    requires
        is_first_box(elems, kws, z, w, h, Some(i)),
        is_first_box(elems, kws, z, w, h, Some(j)),
    ensures
        i == j,
{
    if i < j {
        assert(!box_matches(elems[i as int], kws, z, w, h));
    } else if j < i {
        assert(!box_matches(elems[j as int], kws, z, w, h));
    }
}

/// The index of the first box that matches (meaningful when one does).
pub open spec fn first_box_index(elems: Seq<TextBox>, kws: Seq<Seq<char>>, z: Zone, w: int, h: int) -> usize {
    choose|i: usize| is_first_box(elems, kws, z, w, h, Some(i))
}

/// The first box that matches, or `None` when none does.
pub open spec fn first_box(elems: Seq<TextBox>, kws: Seq<Seq<char>>, z: Zone, w: int, h: int) -> Option<usize> {
    if any_box(elems, kws, z, w, h) {
        Some(first_box_index(elems, kws, z, w, h))
    } else {
        None
    }
}

/// The box that shows the button `b`, if any.
pub open spec fn button_at(b: Button, elems: Seq<TextBox>, w: int, h: int) -> Option<usize> {
    first_box(elems, button_rule(b).0, button_rule(b).1, w, h)
}

/// The first matching box is the one [`first_box`] names.
pub proof fn lemma_first_box_is(elems: Seq<TextBox>, kws: Seq<Seq<char>>, z: Zone, w: int, h: int, r: Option<usize>)
    requires
        is_first_box(elems, kws, z, w, h, r),
    ensures
        r == first_box(elems, kws, z, w, h),
{
    lemma_first_box_any(elems, kws, z, w, h, r);
    if let Some(i) = r {
        let c = first_box_index(elems, kws, z, w, h);
        assert(is_first_box(elems, kws, z, w, h, Some(c)));
        lemma_first_box_unique(elems, kws, z, w, h, i, c);
    }
}

pub open spec fn is_digit(c: char) -> bool {
    '0' <= c && c <= '9'
}

pub open spec fn all_digits(s: Seq<char>) -> bool {
    forall|i: int| 0 <= i < s.len() ==> is_digit(#[trigger] s[i])
}

/// The height, in thousandths of a pixel, of the difficulty label that the
/// boss affixes line up with: that of the first box holding "敌人难度", or
/// seven tenths of the screen when there is none.
pub open spec fn affix_line(elems: Seq<TextBox>, h: int) -> int {
    if any_box(elems, one("敌人难度"@), anywhere(), 0, h) {
        1000 * elems[first_box_index(elems, one("敌人难度"@), anywhere(), 0, h) as int].y
    } else {
        700 * h
    }
}

pub open spec fn abs(v: int) -> int {
    if v < 0 {
        -v
    } else {
        v
    }
}

/// A box is a boss affix: in the left two thirds, within eight hundredths
/// of the screen's height from the difficulty line, not the label itself,
/// not a number, and at least two characters long.
pub open spec fn is_affix(b: TextBox, line: int, w: int, h: int) -> bool {
    &&& !(1000 * b.x > 660 * w)
    &&& !(abs(1000 * b.y - line) > 80 * h)
    &&& !(has_sub(b.text@, "敌人难度"@) || all_digits(b.text@))
    &&& b.text@.len() >= 2
}

pub open spec fn affix_pred(line: int, w: int, h: int) -> spec_fn(TextBox) -> bool {
    |b: TextBox| is_affix(b, line, w, h)
}

pub open spec fn texts(s: Seq<TextBox>) -> Seq<Seq<char>> {
    s.map_values(|b: TextBox| b.text@)
}

fn text_all_digits(t: &String) -> (r: bool)
    ensures
        r == all_digits(t@),
{
    let cs = crate::text::chars_of(t.as_str());
    let mut i: usize = 0;
    while i < cs.len()
        invariant
            cs@ == t@,
            i <= cs@.len(),
            forall|k: int| 0 <= k < i ==> is_digit(#[trigger] cs@[k]),
        decreases cs@.len() - i,
    {
        if !(cs[i] >= '0' && cs[i] <= '9') {
            return false;
        }
        i = i + 1;
    }
    true
}

fn char_count(t: &String) -> (n: usize)
    ensures
        n == t@.len(),
{
    t.as_str().unicode_len()
}

/// The boss affixes that the boss-affix screen shows, in screen order.
pub fn boss_affixes(elems: &[TextBox], w: i32, h: i32) -> (r: Vec<String>)
    ensures
        crate::text::strs(r@) == texts(elems@.filter(affix_pred(affix_line(elems@, h as int), w as int, h as int))),
{
    let label = find_one(elems, "敌人难度", zone_anywhere(), 0, h);
    let line: i64 = match label {
        Some(i) => {
            proof {
                lemma_first_box_unique(
                    elems@,
                    one("敌人难度"@),
                    anywhere(),
                    0,
                    h as int,
                    i,
                    first_box_index(elems@, one("敌人难度"@), anywhere(), 0, h as int),
                );
            }
            (elems[i].y as i64) * 1000
        },
        None => (h as i64) * 700,
    };
    assert(line == affix_line(elems@, h as int));
    let ghost pred = affix_pred(line as int, w as int, h as int);
    let mut r: Vec<String> = Vec::new();
    let mut i: usize = 0;
    reveal(Seq::filter);
    assert(elems@.take(0) =~= Seq::<TextBox>::empty());
    assert(crate::text::strs(r@) =~= texts(Seq::<TextBox>::empty()));
    while i < elems.len()
        invariant
            i <= elems@.len(),
            pred == affix_pred(line as int, w as int, h as int),
            -0x8000_0000 * 1000 <= line <= 0x8000_0000 * 1000,
            crate::text::strs(r@) == texts(elems@.take(i as int).filter(pred)),
        decreases elems@.len() - i,
    {
        let b = &elems[i];
        let dy: i64 = (b.y as i64) * 1000 - line;
        let ady: i64 = if dy < 0 {
            -dy
        } else {
            dy
        };
        let keep = !((b.x as i64) * 1000 > product(660, w)) && !(ady > product(80, h)) && !(str_contains(
            b.text.as_str(),
            "敌人难度",
        ) || text_all_digits(&b.text)) && char_count(&b.text) >= 2;
        assert(keep == pred(elems@[i as int]));
        proof {
            assert(elems@.take(i + 1) =~= elems@.take(i as int).push(elems@[i as int]));
            elems@.take(i as int).lemma_filter_push(elems@[i as int], pred);
        }
        if keep {
            let ghost before = r@;
            r.push(b.text.clone());
            proof {
                let f = elems@.take(i as int).filter(pred);
                assert(texts(f.push(elems@[i as int])) =~= texts(f).push(elems@[i as int].text@));
                assert(crate::text::strs(r@) =~= crate::text::strs(before).push(elems@[i as int].text@));
            }
        }
        i = i + 1;
    }
    assert(elems@.take(elems@.len() as int) =~= elems@);
    r
}


/// Box `i` comes before box `j` from left to right, ties kept in list order.
pub open spec fn x_before(elems: Seq<TextBox>, i: int, j: int) -> bool {
    elems[i].x < elems[j].x || (elems[i].x == elems[j].x && i < j)
}

/// The indices run from left to right, each once.
pub open spec fn ordered_by_x(elems: Seq<TextBox>, r: Seq<usize>) -> bool {
    forall|a: int, b: int| 0 <= a < b < r.len() ==> x_before(elems, #[trigger] r[a] as int, #[trigger] r[b] as int)
}

/// The indices of the boxes flagged in `keep`, from left to right (boxes at
/// the same height of `x` in list order).
fn order_by_x(elems: &[TextBox], keep: &Vec<bool>) -> (r: Vec<usize>)
    requires
        keep@.len() == elems@.len(),
    ensures
        ordered_by_x(elems@, r@),
        forall|i: usize| #[trigger] r@.contains(i) <==> (i < elems@.len() && keep@[i as int]),
{
    let mut r: Vec<usize> = Vec::new();
    let mut i: usize = 0;
    while i < elems.len()
        invariant
            keep@.len() == elems@.len(),
            i <= elems@.len(),
            ordered_by_x(elems@, r@),
            forall|a: int| 0 <= a < r@.len() ==> #[trigger] r@[a] < i,
            forall|j: usize| #[trigger] r@.contains(j) <==> (j < i && keep@[j as int]),
        decreases elems@.len() - i,
    {
        if keep[i] {
            let n = r.len();
            let mut p: usize = 0;
            while p < n
                invariant
                    n == r@.len(),
                    i < elems@.len(),
                    p <= n,
                    forall|a: int| 0 <= a < r@.len() ==> #[trigger] r@[a] < i,
                    forall|a: int| 0 <= a < p ==> elems@[#[trigger] r@[a] as int].x <= elems@[i as int].x,
                ensures
                    p <= n,
                    forall|a: int| 0 <= a < p ==> elems@[#[trigger] r@[a] as int].x <= elems@[i as int].x,
                    p < n ==> elems@[r@[p as int] as int].x > elems@[i as int].x,
                decreases n - p,
            {
                if elems[r[p]].x > elems[i].x {
                    break;
                }
                p = p + 1;
            }
            let ghost old_r = r@;
            r.insert(p, i);
            proof {
                assert(r@ =~= old_r.insert(p as int, i));
                assert forall|a: int, b: int| 0 <= a < b < r@.len() implies x_before(
                    elems@,
                    #[trigger] r@[a] as int,
                    #[trigger] r@[b] as int,
                ) by {
                    if b < p {
                        assert(x_before(elems@, old_r[a] as int, old_r[b] as int));
                    } else if b == p {
                        assert(old_r[a] < i);
                    } else if a < p {
                        assert(old_r[a] < i);
                        assert(x_before(elems@, old_r[a] as int, old_r[b - 1] as int));
                    } else if a == p {
                        if p < n {
                            assert(old_r[b - 1] == old_r[p as int] || x_before(elems@, old_r[p as int] as int, old_r[b - 1] as int));
                        }
                    } else {
                        assert(x_before(elems@, old_r[a - 1] as int, old_r[b - 1] as int));
                    }
                }
                assert forall|j: usize| #[trigger] r@.contains(j) <==> (j < i + 1 && keep@[j as int]) by {
                    if r@.contains(j) {
                        let k = choose|k: int| 0 <= k < r@.len() && r@[k] == j;
                        if k < p {
                            assert(old_r.contains(j));
                        } else if k > p {
                            assert(old_r[k - 1] == j);
                            assert(old_r.contains(j));
                        }
                    }
                    if j < i + 1 && keep@[j as int] {
                        if j < i {
                            assert(old_r.contains(j));
                            let k = choose|k: int| 0 <= k < old_r.len() && old_r[k] == j;
                            if k < p {
                                assert(r@[k] == j);
                            } else {
                                assert(r@[k + 1] == j);
                            }
                        } else {
                            assert(r@[p as int] == j);
                        }
                    }
                }
            }
        } else {
            proof {
                assert forall|j: usize| #[trigger] r@.contains(j) <==> (j < i + 1 && keep@[j as int]) by {
                    if r@.contains(j) {
                        let k = choose|k: int| 0 <= k < r@.len() && r@[k] == j;
                        assert(r@[k] < i);
                    }
                }
            }
        }
        i = i + 1;
    }
    r
}

/// The indices `i` with `keep(i)`, from left to right (boxes at the same
/// `x` in list order).
pub open spec fn in_x_order(elems: Seq<TextBox>, keep: spec_fn(int) -> bool) -> Seq<usize> {
    choose|r: Seq<usize>| x_order_of(elems, keep, r)
}

/// `r` lists the indices `i` with `keep(i)` from left to right.
pub open spec fn x_order_of(elems: Seq<TextBox>, keep: spec_fn(int) -> bool, r: Seq<usize>) -> bool {
    &&& ordered_by_x(elems, r)
    &&& forall|i: usize| #[trigger] r.contains(i) <==> (i < elems.len() && keep(i as int))
}

/// Two lists of the same indices, both from left to right, are equal.
proof fn lemma_x_order_unique(elems: Seq<TextBox>, r1: Seq<usize>, r2: Seq<usize>)
    requires
        ordered_by_x(elems, r1),
        ordered_by_x(elems, r2),
        forall|i: usize| #[trigger] r1.contains(i) <==> r2.contains(i),
    ensures
        r1 == r2,
    decreases r1.len(),
{
    if r1.len() == 0 {
        if r2.len() > 0 {
            assert(r2.contains(r2[0]));
            assert(r1.contains(r2[0]));
        }
        assert(r1 =~= r2);
    } else {
        assert(r1.contains(r1[0]));
        assert(r2.len() > 0);
        assert(r2.contains(r2[0]));
        assert(r1.contains(r2[0]));
        assert(r2.contains(r1[0]));
        if r1[0] != r2[0] {
            let b = choose|b: int| 0 <= b < r1.len() && r1[b] == r2[0];
            let c = choose|c: int| 0 <= c < r2.len() && r2[c] == r1[0];
            assert(x_before(elems, r1[0] as int, r1[b] as int));
            assert(x_before(elems, r2[0] as int, r2[c] as int));
        }
        let t1 = r1.drop_first();
        let t2 = r2.drop_first();
        assert forall|i: usize| #[trigger] t1.contains(i) <==> t2.contains(i) by {
            if t1.contains(i) {
                let j = choose|j: int| 0 <= j < t1.len() && t1[j] == i;
                assert(r1[j + 1] == i);
                assert(r1.contains(i));
                assert(r2.contains(i));
                let k = choose|k: int| 0 <= k < r2.len() && r2[k] == i;
                if k == 0 {
                    assert(x_before(elems, r1[0] as int, r1[j + 1] as int));
                }
                assert(t2[k - 1] == i);
            }
            if t2.contains(i) {
                let j = choose|j: int| 0 <= j < t2.len() && t2[j] == i;
                assert(r2[j + 1] == i);
                assert(r2.contains(i));
                assert(r1.contains(i));
                let k = choose|k: int| 0 <= k < r1.len() && r1[k] == i;
                if k == 0 {
                    assert(x_before(elems, r2[0] as int, r2[j + 1] as int));
                }
                assert(t1[k - 1] == i);
            }
        }
        assert forall|a: int, b: int| 0 <= a < b < t1.len() implies x_before(elems, #[trigger] t1[a] as int, #[trigger] t1[b] as int) by {
            assert(x_before(elems, r1[a + 1] as int, r1[b + 1] as int));
        }
        assert forall|a: int, b: int| 0 <= a < b < t2.len() implies x_before(elems, #[trigger] t2[a] as int, #[trigger] t2[b] as int) by {
            assert(x_before(elems, r2[a + 1] as int, r2[b + 1] as int));
        }
        lemma_x_order_unique(elems, t1, t2);
        assert(r1 =~= seq![r1[0]] + t1);
        assert(r2 =~= seq![r2[0]] + t2);
    }
}

/// A list of the kept indices from left to right is the one [`in_x_order`] names.
proof fn lemma_in_x_order(elems: Seq<TextBox>, keep: spec_fn(int) -> bool, r: Seq<usize>)
    requires
        x_order_of(elems, keep, r),
    ensures
        r == in_x_order(elems, keep),
{
    let c = in_x_order(elems, keep);
    assert(x_order_of(elems, keep, c));
    assert forall|i: usize| #[trigger] r.contains(i) <==> c.contains(i) by {
        assert(r.contains(i) <==> (i < elems.len() && keep(i as int)));
        assert(c.contains(i) <==> (i < elems.len() && keep(i as int)));
    }
    lemma_x_order_unique(elems, r, c);
}

/// The environment cards of a screen, from left to right.
pub open spec fn env_cards_of(elems: Seq<TextBox>, h: int) -> Seq<usize> {
    in_x_order(elems, |i: int| is_env_card(elems[i], h))
}

/// The strategy cards of a screen, from left to right.
pub open spec fn strategy_cards_of(elems: Seq<TextBox>, h: int) -> Seq<usize> {
    in_x_order(elems, |i: int| is_strategy_card(elems[i], h))
}

/// The refresh buttons of the strategy screen, from left to right.
pub open spec fn refresh_buttons_of(elems: Seq<TextBox>) -> Seq<usize> {
    in_x_order(elems, |i: int| has_sub(elems[i].text@, "刷新次数"@))
}

/// Whether `t` reads exactly `lit`.
fn text_is(t: &String, lit: &str) -> (r: bool)
    ensures
        r == (t@ == lit@),
{
    let l = String::from_str(lit);
    *t == l
}

/// A label of the environment screen that is not an environment card.
pub open spec fn env_screen_label(t: Seq<char>) -> bool {
    t == "投资环境"@ || t == "确认"@ || t == "剩余次数"@ || t == "攻略"@ || t == "装备"@
}

/// A box is an environment card: not a screen label, two to ten
/// characters long, at 32 to 38 hundredths of the screen's height.
pub open spec fn is_env_card(b: TextBox, h: int) -> bool {
    &&& !env_screen_label(b.text@)
    &&& 2 <= b.text@.len() <= 10
    &&& within(b.y as int, h, Bound::AtLeast(320))
    &&& within(b.y as int, h, Bound::AtMost(380))
}

/// A label of the strategy screen that is not a strategy card.
pub open spec fn strategy_screen_label(t: Seq<char>) -> bool {
    t == "请选择投资策略"@ || t == "确认"@ || t == "刷新次数"@ || t == "图例"@ || t == "攻略"@ || t == "返回备战界面"@
}

/// A box is a strategy card: not a screen label, two to ten characters
/// long, at 46 to 51 hundredths of the screen's height.
pub open spec fn is_strategy_card(b: TextBox, h: int) -> bool {
    &&& !strategy_screen_label(b.text@)
    &&& 2 <= b.text@.len() <= 10
    &&& within(b.y as int, h, Bound::AtLeast(460))
    &&& within(b.y as int, h, Bound::AtMost(510))
}

/// The environment cards of the environment screen, from left to right.
pub fn environment_cards(elems: &[TextBox], h: i32) -> (r: Vec<usize>)
    ensures
        ordered_by_x(elems@, r@),
        forall|i: usize| #[trigger] r@.contains(i) <==> (i < elems@.len() && is_env_card(elems@[i as int], h as int)),
        r@ == env_cards_of(elems@, h as int),
{
    let mut keep: Vec<bool> = Vec::new();
    let mut i: usize = 0;
    while i < elems.len()
        invariant
            i <= elems@.len(),
            keep@.len() == i,
            forall|k: int| 0 <= k < i ==> keep@[k] == is_env_card(#[trigger] elems@[k], h as int),
        decreases elems@.len() - i,
    {
        let t = &elems[i].text;
        let label = text_is(t, "投资环境") || text_is(t, "确认") || text_is(t, "剩余次数") || text_is(t, "攻略") || text_is(
            t,
            "装备",
        );
        let n = char_count(t);
        let k = !label && n <= 10 && check_bound(elems[i].y, h, Bound::AtLeast(320)) && check_bound(
            elems[i].y,
            h,
            Bound::AtMost(380),
        ) && n >= 2;
        keep.push(k);
        i = i + 1;
    }
    let r = order_by_x(elems, &keep);
    proof {
        let keep_spec = |i: int| is_env_card(elems@[i], h as int);
        assert forall|i: usize| #[trigger] r@.contains(i) <==> (i < elems@.len() && keep_spec(i as int)) by {}
        lemma_in_x_order(elems@, keep_spec, r@);
    }
    r
}

/// The strategy cards of the strategy screen, from left to right.
pub fn strategy_cards(elems: &[TextBox], h: i32) -> (r: Vec<usize>)
    ensures
        ordered_by_x(elems@, r@),
        forall|i: usize| #[trigger] r@.contains(i) <==> (i < elems@.len() && is_strategy_card(elems@[i as int], h as int)),
        r@ == strategy_cards_of(elems@, h as int),
{
    let mut keep: Vec<bool> = Vec::new();
    let mut i: usize = 0;
    while i < elems.len()
        invariant
            i <= elems@.len(),
            keep@.len() == i,
            forall|k: int| 0 <= k < i ==> keep@[k] == is_strategy_card(#[trigger] elems@[k], h as int),
        decreases elems@.len() - i,
    {
        let t = &elems[i].text;
        let label = text_is(t, "请选择投资策略") || text_is(t, "确认") || text_is(t, "刷新次数") || text_is(t, "图例")
            || text_is(t, "攻略") || text_is(t, "返回备战界面");
        let n = char_count(t);
        let k = !label && n <= 10 && check_bound(elems[i].y, h, Bound::AtLeast(460)) && check_bound(
            elems[i].y,
            h,
            Bound::AtMost(510),
        ) && n >= 2;
        keep.push(k);
        i = i + 1;
    }
    let r = order_by_x(elems, &keep);
    proof {
        let keep_spec = |i: int| is_strategy_card(elems@[i], h as int);
        assert forall|i: usize| #[trigger] r@.contains(i) <==> (i < elems@.len() && keep_spec(i as int)) by {}
        lemma_in_x_order(elems@, keep_spec, r@);
    }
    r
}

/// The refresh buttons of the strategy screen (each box that shows
/// "刷新次数"), from left to right.
pub fn strategy_refresh_buttons(elems: &[TextBox]) -> (r: Vec<usize>)
    ensures
        ordered_by_x(elems@, r@),
        forall|i: usize| #[trigger] r@.contains(i) <==> (i < elems@.len() && has_sub(elems@[i as int].text@, "刷新次数"@)),
        r@ == refresh_buttons_of(elems@),
{
    let mut keep: Vec<bool> = Vec::new();
    let mut i: usize = 0;
    while i < elems.len()
        invariant
            i <= elems@.len(),
            keep@.len() == i,
            forall|k: int| 0 <= k < i ==> keep@[k] == has_sub(#[trigger] elems@[k].text@, "刷新次数"@),
        decreases elems@.len() - i,
    {
        let k = str_contains(elems[i].text.as_str(), "刷新次数");
        keep.push(k);
        i = i + 1;
    }
    let r = order_by_x(elems, &keep);
    proof {
        let keep_spec = |i: int| has_sub(elems@[i].text@, "刷新次数"@);
        assert forall|i: usize| #[trigger] r@.contains(i) <==> (i < elems@.len() && keep_spec(i as int)) by {}
        lemma_in_x_order(elems@, keep_spec, r@);
    }
    r
}


/// The ASCII digits of `s`, in order.
pub open spec fn digits(s: Seq<char>) -> Seq<char> {
    s.filter(|c: char| is_digit(c))
}

/// The number that the digit string `d` spells in base ten.
pub open spec fn decimal(d: Seq<char>) -> int
    decreases d.len(),
{
    if d.len() == 0 {
        0
    } else {
        decimal(d.drop_last()) * 10 + (d.last() as int - '0' as int)
    }
}

/// The number of refreshes a box reports: it shows "刷新次数" and its
/// digits, taken together, spell a number that fits an `i32`.
pub open spec fn refresh_reading(b: TextBox) -> Option<i32> {
    let d = digits(b.text@);
    if has_sub(b.text@, "刷新次数"@) && d.len() > 0 && decimal(d) <= i32::MAX {
        Some(decimal(d) as i32)
    } else {
        None
    }
}

/// The refreshes left on the strategy screen: the reading of the first box
/// that has one, or 0.
pub open spec fn refresh_count_of(elems: Seq<TextBox>) -> i32
    decreases elems.len(),
{
    if elems.len() == 0 {
        0
    } else {
        match refresh_reading(elems[0]) {
            Some(v) => v,
            None => refresh_count_of(elems.drop_first()),
        }
    }
}

/// The digits of `t` as a number, or `None` when it has no digit or the
/// number does not fit an `i32`.
fn digit_value(t: &String) -> (r: Option<i32>)
    ensures
        r == (if digits(t@).len() > 0 && decimal(digits(t@)) <= i32::MAX {
            Some(decimal(digits(t@)) as i32)
        } else {
            None::<i32>
        }),
{
    let cs = crate::text::chars_of(t.as_str());
    let ghost pred = |c: char| is_digit(c);
    let mut v: i64 = 0;
    let mut over = false;
    let mut count: usize = 0;
    let mut k: usize = 0;
    reveal(Seq::filter);
    assert(cs@.take(0) =~= Seq::<char>::empty());
    while k < cs.len()
        invariant
            cs@ == t@,
            k <= cs@.len(),
            pred == (|c: char| is_digit(c)),
            count == cs@.take(k as int).filter(pred).len(),
            decimal(cs@.take(k as int).filter(pred)) >= 0,
            !over ==> v == decimal(cs@.take(k as int).filter(pred)) && 0 <= v <= i32::MAX,
            over ==> decimal(cs@.take(k as int).filter(pred)) > i32::MAX,
        decreases cs@.len() - k,
    {
        let c = cs[k];
        let ghost d = cs@.take(k as int).filter(pred);
        proof {
            assert(cs@.take(k + 1) =~= cs@.take(k as int).push(c));
            cs@.take(k as int).lemma_filter_push(c, pred);
        }
        if c >= '0' && c <= '9' {
            proof {
                assert(d.push(c).drop_last() =~= d);
            }
            let dig: i64 = (c as u32 - '0' as u32) as i64;
            if !over {
                let nv = v * 10 + dig;
                if nv > 0x7fff_ffff {
                    over = true;
                } else {
                    v = nv;
                }
            }
            count = count + 1;
        }
        k = k + 1;
    }
    assert(cs@.take(cs@.len() as int) =~= cs@);
    if count > 0 && !over {
        Some(v as i32)
    } else {
        None
    }
}

/// The refreshes left on the strategy screen: the digits of the first box
/// that shows "刷新次数" and holds a number that fits an `i32`, else 0.
pub fn refresh_count(elems: &[TextBox]) -> (r: i32)
    ensures
        r == refresh_count_of(elems@),
{
    let mut i: usize = 0;
    assert(elems@.skip(0) =~= elems@);
    while i < elems.len()
        invariant
            i <= elems@.len(),
            refresh_count_of(elems@) == refresh_count_of(elems@.skip(i as int)),
        decreases elems@.len() - i,
    {
        assert(elems@.skip(i as int)[0] == elems@[i as int]);
        assert(elems@.skip(i as int).drop_first() =~= elems@.skip(i + 1));
        if str_contains(elems[i].text.as_str(), "刷新次数") {
            match digit_value(&elems[i].text) {
                Some(v) => {
                    return v;
                },
                None => {},
            }
        }
        i = i + 1;
    }
    0
}

/// The refreshes left are read from the first box, in list order, that
/// shows "刷新次数" and whose digits spell a number that fits an `i32`; the
/// boxes after it do not matter.
pub proof fn law_refresh_count_reads_the_first_counter(elems: Seq<TextBox>, i: int)
    requires
        0 <= i < elems.len(),
        has_sub(elems[i].text@, "刷新次数"@),
        digits(elems[i].text@).len() > 0,
        decimal(digits(elems[i].text@)) <= i32::MAX,
        forall|j: int|
            0 <= j < i ==> !(has_sub(#[trigger] elems[j].text@, "刷新次数"@) && digits(elems[j].text@).len() > 0
                && decimal(digits(elems[j].text@)) <= i32::MAX),
    ensures
        refresh_count_of(elems) == decimal(digits(elems[i].text@)),
    decreases i,
{
    if i == 0 {
        broadcast use vstd::seq_lib::group_filter_ensures;
        let d = digits(elems[0].text@);
        assert forall|k: int| 0 <= k < d.len() implies is_digit(#[trigger] d[k]) by {
            assert(d.contains(d[k]));
        }
        lemma_decimal_of_digits_nonneg(d);
    } else {
        let rest = elems.drop_first();
        assert(!(has_sub(elems[0].text@, "刷新次数"@) && digits(elems[0].text@).len() > 0 && decimal(
            digits(elems[0].text@),
        ) <= i32::MAX));
        assert forall|j: int|
            0 <= j < i - 1 implies !(has_sub(#[trigger] rest[j].text@, "刷新次数"@) && digits(rest[j].text@).len() > 0
                && decimal(digits(rest[j].text@)) <= i32::MAX) by {
            assert(rest[j] == elems[j + 1]);
        }
        assert(rest[i - 1] == elems[i]);
        law_refresh_count_reads_the_first_counter(rest, i - 1);
    }
}

/// With no box that shows "刷新次数" and a number that fits an `i32`, no
/// refresh is left.
pub proof fn law_no_counter_means_no_refresh(elems: Seq<TextBox>)
    requires
        forall|j: int|
            0 <= j < elems.len() ==> !(has_sub(#[trigger] elems[j].text@, "刷新次数"@) && digits(elems[j].text@).len()
                > 0 && decimal(digits(elems[j].text@)) <= i32::MAX),
    ensures
        refresh_count_of(elems) == 0,
    decreases elems.len(),
{
    if elems.len() > 0 {
        let rest = elems.drop_first();
        assert(!(has_sub(elems[0].text@, "刷新次数"@) && digits(elems[0].text@).len() > 0 && decimal(
            digits(elems[0].text@),
        ) <= i32::MAX));
        assert forall|j: int|
            0 <= j < rest.len() implies !(has_sub(#[trigger] rest[j].text@, "刷新次数"@) && digits(rest[j].text@).len()
                > 0 && decimal(digits(rest[j].text@)) <= i32::MAX) by {
            assert(rest[j] == elems[j + 1]);
        }
        law_no_counter_means_no_refresh(rest);
    }
}

/// A matching box at `k` means there is a first matching box.
pub proof fn lemma_some_first_box(elems: Seq<TextBox>, kws: Seq<Seq<char>>, z: Zone, w: int, h: int, k: int)
    requires
        0 <= k < elems.len(),
        elems.len() <= usize::MAX,
        box_matches(elems[k], kws, z, w, h),
    ensures
        is_first_box(elems, kws, z, w, h, Some(first_box_index(elems, kws, z, w, h))),
    decreases k,
{
    if forall|j: int| 0 <= j < k ==> !box_matches(#[trigger] elems[j], kws, z, w, h) {
        assert(is_first_box(elems, kws, z, w, h, Some(k as usize)));
    } else {
        let j = choose|j: int| 0 <= j < k && box_matches(#[trigger] elems[j], kws, z, w, h);
        lemma_some_first_box(elems, kws, z, w, h, j);
    }
}

proof fn lemma_decimal_of_digits_nonneg(d: Seq<char>)
    requires
        forall|i: int| 0 <= i < d.len() ==> is_digit(#[trigger] d[i]),
    ensures
        decimal(d) >= 0,
    decreases d.len(),
{
    if d.len() > 0 {
        lemma_decimal_of_digits_nonneg(d.drop_last());
        assert(is_digit(d[d.len() - 1]));
    }
}

/// The box found for a button shows that button's label: "开始" and
/// "货币战争" for starting a run, "进入标准博弈" for entering the standard
/// game, "结束并结算" for ending and settling, "开始对局" for starting the
/// battle, "下一步" for the next step, "点击空白处继续" for going on, "确认"
/// for confirming, "出战" for the battle, "放弃并结算" for giving up,
/// "下一页" for the next page, "返回货币战争" for returning to the event,
/// "继续挑战" for continuing the challenge and "剩余次数" for the refreshes left.
pub proof fn law_button_box_shows_its_label(b: Button, elems: Seq<TextBox>, w: int, h: int)
    requires
        elems.len() <= usize::MAX,
    ensures
        button_at(b, elems, w, h) matches Some(r) ==> r < elems.len() && {
            let t = elems[r as int].text@;
            match b {
                Button::StartRun => has_sub(t, "开始"@) && has_sub(t, "货币战争"@),
                Button::EnterStandard => has_sub(t, "进入标准博弈"@),
                Button::EndAndSettle => has_sub(t, "结束并结算"@),
                Button::StartBattle => has_sub(t, "开始对局"@),
                Button::NextStep => has_sub(t, "下一步"@),
                Button::BlankContinue => has_sub(t, "点击空白处继续"@),
                Button::Confirm => has_sub(t, "确认"@),
                Button::Battle => has_sub(t, "出战"@),
                Button::GiveUpAndSettle => has_sub(t, "放弃并结算"@),
                Button::NextPage => has_sub(t, "下一页"@),
                Button::ReturnToEvent => has_sub(t, "返回货币战争"@),
                Button::ContinueChallenge => has_sub(t, "继续挑战"@),
                Button::RemainingRefreshes => has_sub(t, "剩余次数"@),
            }
        },
{
    let (kws, z) = button_rule(b);
    if let Some(r) = button_at(b, elems, w, h) {
        let k = choose|k: int| 0 <= k < elems.len() && box_matches(#[trigger] elems[k], kws, z, w, h);
        lemma_some_first_box(elems, kws, z, w, h, k);
        let c = first_box_index(elems, kws, z, w, h);
        assert(is_first_box(elems, kws, z, w, h, Some(c)));
        assert(all_occur(elems[r as int].text@, kws));
        assert(has_sub(elems[r as int].text@, kws[0]));
        if b == Button::StartRun {
            assert(has_sub(elems[r as int].text@, kws[1]));
        }
    }
}

/// Some box holds `kw`.
pub open spec fn some_text_holds(elems: Seq<TextBox>, kw: Seq<char>) -> bool {
    exists|k: int| 0 <= k < elems.len() && #[trigger] has_sub(elems[k].text@, kw)
}

/// Which screen the text shows, said box by box: the start screen has a box
/// with both "开始" and "货币战争"; the preparation screen "备战阶段" in the
/// top left (left of 3/10 of the width, above 2/10 of the height) and "商店"
/// in the bottom right (right of 7/10, below 6/10); the strategy screen
/// "请选择投资策略" and "确认" below 8/10 of the height; the others the
/// keywords listed, in one box each or in all the text taken together.
pub proof fn law_pages_by_their_keywords(p: Page, elems: Seq<TextBox>, w: int, h: int)
    ensures
        page_shown(p, elems, w, h) <==> {
            let all = joined(elems);
            match p {
                Page::Start => exists|k: int|
                    0 <= k < elems.len() && #[trigger] has_sub(elems[k].text@, "开始"@) && has_sub(elems[k].text@, "货币战争"@),
                Page::GameMode => has_sub(all, "进入标准博弈"@) || (has_sub(all, "结束并结算"@) && has_sub(all, "继续进度"@)),
                Page::Difficulty => some_text_holds(elems, "开始对局"@),
                Page::BossAffix => has_sub(all, "本场对局首领"@) && has_sub(all, "下一步"@) && has_sub(all, "敌人难度"@),
                Page::PlaneSelect => some_text_holds(elems, "点击空白处继续"@),
                Page::InvestEnvironment => has_sub(all, "投资环境"@) && has_sub(all, "确认"@),
                Page::Preparation => (exists|k: int|
                    0 <= k < elems.len() && #[trigger] has_sub(elems[k].text@, "备战阶段"@) && elems[k].x * 1000 < 300 * w
                        && elems[k].y * 1000 < 200 * h) && (exists|k: int|
                    0 <= k < elems.len() && #[trigger] has_sub(elems[k].text@, "商店"@) && elems[k].x * 1000 > 700 * w
                        && elems[k].y * 1000 > 600 * h),
                Page::Shop => some_text_holds(elems, "备战阶段"@) && some_text_holds(elems, "刷新"@),
                Page::InvestStrategy => some_text_holds(elems, "请选择投资策略"@) && exists|k: int|
                    0 <= k < elems.len() && #[trigger] has_sub(elems[k].text@, "确认"@) && elems[k].y * 1000 > 800 * h,
                Page::ExitConfirm => has_sub(all, "提示"@) && has_sub(all, "放弃并结算"@),
                Page::ExitChallengeFail => has_sub(all, "挑战失败"@) && has_sub(all, "下一步"@),
                Page::ExitStats => has_sub(all, "对局未完成"@) && has_sub(all, "下一页"@),
                Page::ExitReturn => some_text_holds(elems, "返回货币战争"@),
                Page::BattleSettlement => some_text_holds(elems, "挑战成功"@) && some_text_holds(elems, "继续挑战"@),
            }
        },
{
    assert forall|kw: Seq<char>| #[trigger] any_box(elems, one(kw), anywhere(), w, h) == some_text_holds(elems, kw) by {
        if any_box(elems, one(kw), anywhere(), w, h) {
            let k = choose|k: int| 0 <= k < elems.len() && box_matches(#[trigger] elems[k], one(kw), anywhere(), w, h);
            assert(all_occur(elems[k].text@, one(kw)));
            assert(one(kw)[0] == kw);
            assert(has_sub(elems[k].text@, kw));
        }
        if some_text_holds(elems, kw) {
            let k = choose|k: int| 0 <= k < elems.len() && #[trigger] has_sub(elems[k].text@, kw);
            assert(box_matches(elems[k], one(kw), anywhere(), w, h));
        }
    }
    match p {
        Page::Start => {
            let kws = seq!["开始"@, "货币战争"@];
            if any_box(elems, kws, anywhere(), w, h) {
                let k = choose|k: int| 0 <= k < elems.len() && box_matches(#[trigger] elems[k], kws, anywhere(), w, h);
                assert(has_sub(elems[k].text@, kws[0]) && has_sub(elems[k].text@, kws[1]));
            }
            if exists|k: int| 0 <= k < elems.len() && #[trigger] has_sub(elems[k].text@, "开始"@) && has_sub(elems[k].text@, "货币战争"@) {
                let k = choose|k: int| 0 <= k < elems.len() && #[trigger] has_sub(elems[k].text@, "开始"@) && has_sub(elems[k].text@, "货币战争"@);
                assert(all_occur(elems[k].text@, kws));
                assert(box_matches(elems[k], kws, anywhere(), w, h));
            }
        },
        Page::Preparation => {
            let z1 = zone_xy(Bound::Any, Bound::Below(300), Bound::Any, Bound::Below(200));
            let z2 = zone_xy(Bound::Above(700), Bound::Any, Bound::Above(600), Bound::Any);
            let k1 = one("备战阶段"@);
            let k2 = one("商店"@);
            assert(k1[0] == "备战阶段"@ && k2[0] == "商店"@);
            if any_box(elems, k1, z1, w, h) {
                let k = choose|k: int| 0 <= k < elems.len() && box_matches(#[trigger] elems[k], k1, z1, w, h);
                assert(has_sub(elems[k].text@, k1[0]));
            }
            if any_box(elems, k2, z2, w, h) {
                let k = choose|k: int| 0 <= k < elems.len() && box_matches(#[trigger] elems[k], k2, z2, w, h);
                assert(has_sub(elems[k].text@, k2[0]));
            }
            if exists|k: int| 0 <= k < elems.len() && #[trigger] has_sub(elems[k].text@, "备战阶段"@) && elems[k].x * 1000 < 300 * w && elems[k].y * 1000 < 200 * h {
                let k = choose|k: int| 0 <= k < elems.len() && #[trigger] has_sub(elems[k].text@, "备战阶段"@) && elems[k].x * 1000 < 300 * w && elems[k].y * 1000 < 200 * h;
                assert(box_matches(elems[k], k1, z1, w, h));
            }
            if exists|k: int| 0 <= k < elems.len() && #[trigger] has_sub(elems[k].text@, "商店"@) && elems[k].x * 1000 > 700 * w && elems[k].y * 1000 > 600 * h {
                let k = choose|k: int| 0 <= k < elems.len() && #[trigger] has_sub(elems[k].text@, "商店"@) && elems[k].x * 1000 > 700 * w && elems[k].y * 1000 > 600 * h;
                assert(box_matches(elems[k], k2, z2, w, h));
            }
        },
        Page::InvestStrategy => {
            let z = zone_xy(Bound::Any, Bound::Any, Bound::Above(800), Bound::Any);
            let k1 = one("确认"@);
            assert(k1[0] == "确认"@);
            if any_box(elems, k1, z, w, h) {
                let k = choose|k: int| 0 <= k < elems.len() && box_matches(#[trigger] elems[k], k1, z, w, h);
                assert(has_sub(elems[k].text@, k1[0]));
            }
            if exists|k: int| 0 <= k < elems.len() && #[trigger] has_sub(elems[k].text@, "确认"@) && elems[k].y * 1000 > 800 * h {
                let k = choose|k: int| 0 <= k < elems.len() && #[trigger] has_sub(elems[k].text@, "确认"@) && elems[k].y * 1000 > 800 * h;
                assert(box_matches(elems[k], k1, z, w, h));
            }
        },
        _ => {},
    }
}

/// The game-mode screen is in progress exactly when it offers to end and
/// settle or to continue; it is a new game when it offers only to enter the
/// standard game; other text is no game-mode screen.
pub proof fn law_game_mode_state_by_its_offers(elems: Seq<TextBox>)
    ensures
        ({
            let all = joined(elems);
            let shown = has_sub(all, "进入标准博弈"@) || (has_sub(all, "结束并结算"@) && has_sub(all, "继续进度"@));
            let in_progress = has_sub(all, "结束并结算"@) || has_sub(all, "继续进度"@);
            &&& game_mode_spec(elems) == Some(2i32) <==> shown && in_progress
            &&& game_mode_spec(elems) == Some(1i32) <==> shown && !in_progress
            &&& game_mode_spec(elems) is None <==> !shown
        }),
{
}

/// `r` with `i` put in its place from left to right.
spec fn insert_by_x(elems: Seq<TextBox>, r: Seq<usize>, i: usize) -> Seq<usize>
    decreases r.len(),
{
    if r.len() == 0 {
        seq![i]
    } else if x_before(elems, i as int, r[0] as int) {
        seq![i] + r
    } else {
        seq![r[0]] + insert_by_x(elems, r.drop_first(), i)
    }
}

/// The indices below `n` with `keep`, from left to right.
spec fn kept_by_x(elems: Seq<TextBox>, keep: spec_fn(int) -> bool, n: nat) -> Seq<usize>
    decreases n,
{
    if n == 0 {
        Seq::empty()
    } else if keep(n - 1) {
        insert_by_x(elems, kept_by_x(elems, keep, (n - 1) as nat), (n - 1) as usize)
    } else {
        kept_by_x(elems, keep, (n - 1) as nat)
    }
}

proof fn lemma_insert_by_x(elems: Seq<TextBox>, r: Seq<usize>, i: usize)
    requires
        ordered_by_x(elems, r),
        !r.contains(i),
    ensures
        ordered_by_x(elems, insert_by_x(elems, r, i)),
        forall|t: usize| #[trigger] insert_by_x(elems, r, i).contains(t) <==> (r.contains(t) || t == i),
    decreases r.len(),
{
    let q = insert_by_x(elems, r, i);
    if r.len() == 0 {
        assert forall|t: usize| #[trigger] q.contains(t) <==> (r.contains(t) || t == i) by {
            if q.contains(t) {
                assert(q[0] == t);
            }
            if t == i {
                assert(q[0] == i);
            }
        }
    } else if x_before(elems, i as int, r[0] as int) {
        assert forall|a: int, b: int| 0 <= a < b < q.len() implies x_before(elems, #[trigger] q[a] as int, #[trigger] q[b] as int) by {
            if a == 0 {
                assert(q[b] == r[b - 1]);
                if b > 1 {
                    assert(x_before(elems, r[0] as int, r[b - 1] as int));
                }
            } else {
                assert(x_before(elems, r[a - 1] as int, r[b - 1] as int));
            }
        }
        assert forall|t: usize| #[trigger] q.contains(t) <==> (r.contains(t) || t == i) by {
            if q.contains(t) {
                let k = choose|k: int| 0 <= k < q.len() && q[k] == t;
                if k > 0 {
                    assert(r[k - 1] == t);
                }
            }
            if r.contains(t) {
                let k = choose|k: int| 0 <= k < r.len() && r[k] == t;
                assert(q[k + 1] == t);
            }
            if t == i {
                assert(q[0] == i);
            }
        }
    } else {
        let rest = r.drop_first();
        assert forall|a: int, b: int| 0 <= a < b < rest.len() implies x_before(elems, #[trigger] rest[a] as int, #[trigger] rest[b] as int) by {
            assert(x_before(elems, r[a + 1] as int, r[b + 1] as int));
        }
        assert(!rest.contains(i)) by {
            if rest.contains(i) {
                let k = choose|k: int| 0 <= k < rest.len() && rest[k] == i;
                assert(r[k + 1] == i);
            }
        }
        assert(r.contains(r[0]));
        lemma_insert_by_x(elems, rest, i);
        let q2 = insert_by_x(elems, rest, i);
        assert(q =~= seq![r[0]] + q2);
        assert forall|a: int, b: int| 0 <= a < b < q.len() implies x_before(elems, #[trigger] q[a] as int, #[trigger] q[b] as int) by {
            if a == 0 {
                assert(q[b] == q2[b - 1]);
                assert(q2.contains(q2[b - 1]));
                if q2[b - 1] != i {
                    let k = choose|k: int| 0 <= k < rest.len() && rest[k] == q2[b - 1];
                    assert(r[k + 1] == q2[b - 1]);
                    assert(x_before(elems, r[0] as int, r[k + 1] as int));
                }
            } else {
                assert(x_before(elems, q2[a - 1] as int, q2[b - 1] as int));
            }
        }
        assert forall|t: usize| #[trigger] q.contains(t) <==> (r.contains(t) || t == i) by {
            if q.contains(t) {
                let k = choose|k: int| 0 <= k < q.len() && q[k] == t;
                if k > 0 {
                    assert(q2[k - 1] == t);
                    assert(q2.contains(t));
                    if rest.contains(t) {
                        let j = choose|j: int| 0 <= j < rest.len() && rest[j] == t;
                        assert(r[j + 1] == t);
                    }
                }
            }
            if r.contains(t) {
                let k = choose|k: int| 0 <= k < r.len() && r[k] == t;
                if k == 0 {
                    assert(q[0] == t);
                } else {
                    assert(rest[k - 1] == t);
                    assert(rest.contains(t));
                    assert(q2.contains(t));
                    let j = choose|j: int| 0 <= j < q2.len() && q2[j] == t;
                    assert(q[j + 1] == t);
                }
            }
            if t == i {
                assert(q2.contains(i));
                let j = choose|j: int| 0 <= j < q2.len() && q2[j] == i;
                assert(q[j + 1] == i);
            }
        }
    }
}

proof fn lemma_kept_by_x(elems: Seq<TextBox>, keep: spec_fn(int) -> bool, n: nat)
    requires
        n <= elems.len(),
        elems.len() <= usize::MAX,
    ensures
        ordered_by_x(elems, kept_by_x(elems, keep, n)),
        forall|t: usize| #[trigger] kept_by_x(elems, keep, n).contains(t) <==> (t < n && keep(t as int)),
    decreases n,
{
    if n > 0 {
        let m = (n - 1) as nat;
        lemma_kept_by_x(elems, keep, m);
        if keep(m as int) {
            let r = kept_by_x(elems, keep, m);
            assert(!r.contains(m as usize));
            lemma_insert_by_x(elems, r, m as usize);
        }
    }
}

/// There is a list of the kept indices from left to right, so
/// [`in_x_order`] names one.
proof fn lemma_in_x_order_exists(elems: Seq<TextBox>, keep: spec_fn(int) -> bool)
    requires
        elems.len() <= usize::MAX,
    ensures
        x_order_of(elems, keep, in_x_order(elems, keep)),
{
    lemma_kept_by_x(elems, keep, elems.len());
    let r = kept_by_x(elems, keep, elems.len());
    assert(x_order_of(elems, keep, r));
}

/// The environment cards are exactly the boxes at 32 to 38 hundredths of
/// the screen's height with two to ten characters that are not one of the
/// screen's labels ("投资环境", "确认", "剩余次数", "攻略", "装备"), listed from
/// left to right (boxes at the same `x` in list order).
pub proof fn law_environment_cards_are_the_boxes_in_the_band(elems: Seq<TextBox>, h: int)
    requires
        elems.len() <= usize::MAX,
    ensures
        ({
            let r = env_cards_of(elems, h);
            &&& forall|i: usize|
                #[trigger] r.contains(i) <==> (i < elems.len() && {
                    let t = elems[i as int].text@;
                    &&& t != "投资环境"@ && t != "确认"@ && t != "剩余次数"@ && t != "攻略"@ && t != "装备"@
                    &&& 2 <= t.len() <= 10
                    &&& elems[i as int].y * 1000 >= 320 * h && elems[i as int].y * 1000 <= 380 * h
                })
            &&& forall|a: int, b: int|
                0 <= a < b < r.len() ==> elems[#[trigger] r[a] as int].x < elems[#[trigger] r[b] as int].x || (
                elems[r[a] as int].x == elems[r[b] as int].x && r[a] < r[b])
        }),
{
    lemma_in_x_order_exists(elems, |i: int| is_env_card(elems[i], h));
}

/// The strategy cards are exactly the boxes at 46 to 51 hundredths of the
/// screen's height with two to ten characters that are not one of the
/// screen's labels ("请选择投资策略", "确认", "刷新次数", "图例", "攻略",
/// "返回备战界面"), listed from left to right.
pub proof fn law_strategy_cards_are_the_boxes_in_the_band(elems: Seq<TextBox>, h: int)
    requires
        elems.len() <= usize::MAX,
    ensures
        ({
            let r = strategy_cards_of(elems, h);
            &&& forall|i: usize|
                #[trigger] r.contains(i) <==> (i < elems.len() && {
                    let t = elems[i as int].text@;
                    &&& t != "请选择投资策略"@ && t != "确认"@ && t != "刷新次数"@ && t != "图例"@ && t != "攻略"@ && t
                        != "返回备战界面"@
                    &&& 2 <= t.len() <= 10
                    &&& elems[i as int].y * 1000 >= 460 * h && elems[i as int].y * 1000 <= 510 * h
                })
            &&& forall|a: int, b: int|
                0 <= a < b < r.len() ==> elems[#[trigger] r[a] as int].x < elems[#[trigger] r[b] as int].x || (
                elems[r[a] as int].x == elems[r[b] as int].x && r[a] < r[b])
        }),
{
    lemma_in_x_order_exists(elems, |i: int| is_strategy_card(elems[i], h));
}

/// The refresh buttons of the strategy screen are exactly the boxes that
/// show "刷新次数", listed from left to right.
pub proof fn law_refresh_buttons_are_the_counter_boxes(elems: Seq<TextBox>)
    requires
        elems.len() <= usize::MAX,
    ensures
        ({
            let r = refresh_buttons_of(elems);
            &&& forall|i: usize|
                #[trigger] r.contains(i) <==> (i < elems.len() && has_sub(elems[i as int].text@, "刷新次数"@))
            &&& forall|a: int, b: int|
                0 <= a < b < r.len() ==> elems[#[trigger] r[a] as int].x < elems[#[trigger] r[b] as int].x || (
                elems[r[a] as int].x == elems[r[b] as int].x && r[a] < r[b])
        }),
{
    lemma_in_x_order_exists(elems, |i: int| has_sub(elems[i].text@, "刷新次数"@));
}

/// The boss affixes line up with the first box, in list order, that holds
/// "敌人难度" (seven tenths of the screen's height without one); a box is an
/// affix when it lies in the left two thirds, within eight hundredths of the
/// screen's height of that line, does not hold "敌人难度", is not all digits
/// and has at least two characters. The affixes are kept in list order.
pub proof fn law_boss_affixes_line_up_with_the_difficulty(elems: Seq<TextBox>, w: int, h: int, line: int)
    requires
        elems.len() <= usize::MAX,
        (exists|k: int|
            0 <= k < elems.len() && #[trigger] has_sub(elems[k].text@, "敌人难度"@) && line == 1000 * elems[k].y
                && forall|j: int| 0 <= j < k ==> !has_sub(#[trigger] elems[j].text@, "敌人难度"@)) || (!(exists|k: int|
            0 <= k < elems.len() && #[trigger] has_sub(elems[k].text@, "敌人难度"@)) && line == 700 * h),
    ensures
        affix_line(elems, h) == line,
        forall|b: TextBox|
            #[trigger] is_affix(b, line, w, h) <==> {
                &&& 1000 * b.x <= 660 * w
                &&& 1000 * b.y - line <= 80 * h && line - 1000 * b.y <= 80 * h
                &&& !has_sub(b.text@, "敌人难度"@)
                &&& !(forall|c: int| 0 <= c < b.text@.len() ==> '0' <= #[trigger] b.text@[c] <= '9')
                &&& b.text@.len() >= 2
            },
{
    let kws = one("敌人难度"@);
    assert(kws[0] == "敌人难度"@);
    if exists|k: int| 0 <= k < elems.len() && #[trigger] has_sub(elems[k].text@, "敌人难度"@) && line == 1000 * elems[k].y
        && forall|j: int| 0 <= j < k ==> !has_sub(#[trigger] elems[j].text@, "敌人难度"@) {
        let k = choose|k: int|
            0 <= k < elems.len() && #[trigger] has_sub(elems[k].text@, "敌人难度"@) && line == 1000 * elems[k].y
                && forall|j: int| 0 <= j < k ==> !has_sub(#[trigger] elems[j].text@, "敌人难度"@);
        assert(box_matches(elems[k], kws, anywhere(), 0, h));
        assert(forall|j: int| 0 <= j < k ==> !box_matches(#[trigger] elems[j], kws, anywhere(), 0, h));
        assert(is_first_box(elems, kws, anywhere(), 0, h, Some(k as usize)));
        lemma_some_first_box(elems, kws, anywhere(), 0, h, k);
        lemma_first_box_unique(elems, kws, anywhere(), 0, h, k as usize, first_box_index(elems, kws, anywhere(), 0, h));
    } else {
        if any_box(elems, kws, anywhere(), 0, h) {
            let k = choose|k: int| 0 <= k < elems.len() && box_matches(#[trigger] elems[k], kws, anywhere(), 0, h);
            assert(has_sub(elems[k].text@, "敌人难度"@));
        }
    }
}


/// The box found for a button lies where that button stands: "确认" in the
/// band from 8/10 of the height down; "出战" right of 3/4 of the width,
/// between 55/100 and 8/10 of the height; "放弃并结算" between 2/10 and
/// 8/10 of the width, from 6/10 of the height down. Every other button is
/// looked for on the whole screen, and no earlier box shows its label
/// there.
pub proof fn law_button_box_lies_in_its_part_of_the_screen(b: Button, elems: Seq<TextBox>, w: int, h: int)
    requires
        elems.len() <= usize::MAX,
    ensures
        button_at(b, elems, w, h) matches Some(r) ==> r < elems.len() && {
            let x = elems[r as int].x as int;
            let y = elems[r as int].y as int;
            match b {
                Button::Confirm => y * 1000 >= 800 * h && y * 1000 <= 1000 * h,
                Button::Battle => x * 1000 > 750 * w && y * 1000 > 550 * h && y * 1000 < 800 * h,
                Button::GiveUpAndSettle => x * 1000 >= 200 * w && x * 1000 <= 800 * w && y * 1000 >= 600 * h && y * 1000
                    <= 1000 * h,
                Button::StartRun => forall|k: int| 0 <= k < r ==> !(has_sub(#[trigger] elems[k].text@, "开始"@) && has_sub(
                    elems[k].text@,
                    "货币战争"@,
                )),
                Button::EnterStandard => forall|k: int| 0 <= k < r ==> !has_sub(#[trigger] elems[k].text@, "进入标准博弈"@),
                Button::EndAndSettle => forall|k: int| 0 <= k < r ==> !has_sub(#[trigger] elems[k].text@, "结束并结算"@),
                Button::StartBattle => forall|k: int| 0 <= k < r ==> !has_sub(#[trigger] elems[k].text@, "开始对局"@),
                Button::NextStep => forall|k: int| 0 <= k < r ==> !has_sub(#[trigger] elems[k].text@, "下一步"@),
                Button::BlankContinue => forall|k: int| 0 <= k < r ==> !has_sub(#[trigger] elems[k].text@, "点击空白处继续"@),
                Button::NextPage => forall|k: int| 0 <= k < r ==> !has_sub(#[trigger] elems[k].text@, "下一页"@),
                Button::ReturnToEvent => forall|k: int| 0 <= k < r ==> !has_sub(#[trigger] elems[k].text@, "返回货币战争"@),
                Button::ContinueChallenge => forall|k: int| 0 <= k < r ==> !has_sub(#[trigger] elems[k].text@, "继续挑战"@),
                Button::RemainingRefreshes => forall|k: int| 0 <= k < r ==> !has_sub(#[trigger] elems[k].text@, "剩余次数"@),
            }
        },
{
    let (kws, z) = button_rule(b);
    if let Some(r) = button_at(b, elems, w, h) {
        let k = choose|k: int| 0 <= k < elems.len() && box_matches(#[trigger] elems[k], kws, z, w, h);
        lemma_some_first_box(elems, kws, z, w, h, k);
        let c = first_box_index(elems, kws, z, w, h);
        assert(is_first_box(elems, kws, z, w, h, Some(c)));
        assert(in_zone(elems[r as int], z, w, h));
        assert forall|j: int| 0 <= j < r implies !box_matches(#[trigger] elems[j], kws, z, w, h) by {}
        if b == Button::StartRun {
            assert forall|j: int| 0 <= j < r implies !(has_sub(#[trigger] elems[j].text@, "开始"@) && has_sub(
                elems[j].text@,
                "货币战争"@,
            )) by {
                if has_sub(elems[j].text@, "开始"@) && has_sub(elems[j].text@, "货币战争"@) {
                    assert(all_occur(elems[j].text@, kws));
                }
            }
        }
    }
}

} // verus!
