//! The catalogue of pages that the page test knows, matched by keywords.

use vstd::prelude::*;
use crate::text::{has_sub, str_contains, str_eq};
use crate::pages::{Page, strs_of};

verus! {

/// A page the page test knows: its name and the keywords that reveal it.
pub struct PageDefinition {
    pub name: &'static str,
    pub keywords: &'static [&'static str],
}

/// The pages the page test knows, each with its two keywords, in order.
pub open spec fn page_table() -> Seq<(Seq<char>, Seq<Seq<char>>)> {
    seq![
        ("StartPage"@, seq!["开始"@, "货币战争"@]),
        ("GameModePage"@, seq!["常规演算"@, "周期演算"@]),
        ("DifficultyPage"@, seq!["难度"@, "选择难度"@]),
        ("BossAffixPage"@, seq!["首领"@, "词缀"@]),
        ("PlaneSelectPage"@, seq!["位面"@, "选择位面"@]),
        ("InvestEnvironmentPage"@, seq!["环境"@, "投资环境"@]),
        ("PreparationPage"@, seq!["准备"@, "准备阶段"@]),
        ("ShopPage"@, seq!["商店"@, "星际和平商店"@]),
        ("InvestStrategyPage"@, seq!["策略"@, "投资策略"@]),
        ("ExitConfirmDialog"@, seq!["确认"@, "退出"@]),
        ("ExitChallengeFailPage"@, seq!["挑战失败"@, "失败"@]),
        ("ExitStatsPage"@, seq!["统计"@, "数据"@]),
        ("ExitReturnPage"@, seq!["返回"@, "退出"@]),
        ("BattleSettlementPage"@, seq!["战斗"@, "结算"@]),
        ("SpecialEventPage"@, seq!["盛会之星"@, "命运卜者"@])
    ]
}

pub open spec fn definition_view(d: PageDefinition) -> (Seq<char>, Seq<Seq<char>>) {
    (d.name@, strs_of(d.keywords@))
}

/// The pages the page test knows.
pub fn page_definitions() -> (r: Vec<PageDefinition>)
    ensures
        r@.map_values(|d: PageDefinition| definition_view(d)) == page_table(),
{
    let mut r: Vec<PageDefinition> = Vec::new();
    r.push(PageDefinition { name: "StartPage", keywords: &["开始", "货币战争"] });
    r.push(PageDefinition { name: "GameModePage", keywords: &["常规演算", "周期演算"] });
    r.push(PageDefinition { name: "DifficultyPage", keywords: &["难度", "选择难度"] });
    r.push(PageDefinition { name: "BossAffixPage", keywords: &["首领", "词缀"] });
    r.push(PageDefinition { name: "PlaneSelectPage", keywords: &["位面", "选择位面"] });
    r.push(PageDefinition { name: "InvestEnvironmentPage", keywords: &["环境", "投资环境"] });
    r.push(PageDefinition { name: "PreparationPage", keywords: &["准备", "准备阶段"] });
    r.push(PageDefinition { name: "ShopPage", keywords: &["商店", "星际和平商店"] });
    r.push(PageDefinition { name: "InvestStrategyPage", keywords: &["策略", "投资策略"] });
    r.push(PageDefinition { name: "ExitConfirmDialog", keywords: &["确认", "退出"] });
    r.push(PageDefinition { name: "ExitChallengeFailPage", keywords: &["挑战失败", "失败"] });
    r.push(PageDefinition { name: "ExitStatsPage", keywords: &["统计", "数据"] });
    r.push(PageDefinition { name: "ExitReturnPage", keywords: &["返回", "退出"] });
    r.push(PageDefinition { name: "BattleSettlementPage", keywords: &["战斗", "结算"] });
    r.push(PageDefinition { name: "SpecialEventPage", keywords: &["盛会之星", "命运卜者"] });
    assert(r@.map_values(|d: PageDefinition| definition_view(d)) =~~= page_table());
    r
}

/// The names of the pages the page test knows, in order.
pub fn get_page_names() -> (r: Vec<&'static str>)
    ensures
        r@.len() == page_table().len(),
        forall|i: int| 0 <= i < r@.len() ==> #[trigger] r@[i]@ == page_table()[i].0,
{
    let defs = page_definitions();
    let ghost t = defs@.map_values(|d: PageDefinition| definition_view(d));
    let mut r: Vec<&'static str> = Vec::new();
    let mut i: usize = 0;
    while i < defs.len()
        invariant
            t == defs@.map_values(|d: PageDefinition| definition_view(d)),
            t == page_table(),
            i <= defs@.len(),
            r@.len() == i,
            forall|k: int| 0 <= k < i ==> #[trigger] r@[k]@ == page_table()[k].0,
        decreases defs@.len() - i,
    {
        assert(t[i as int] == definition_view(defs@[i as int]));
        r.push(defs[i].name);
        i = i + 1;
    }
    r
}

/// The first known page named `name`.
pub fn find_page(name: &str) -> (r: Option<usize>)
    ensures
        r matches Some(i) ==> i < page_table().len() && page_table()[i as int].0 == name@ && forall|k: int|
            0 <= k < i ==> #[trigger] page_table()[k].0 != name@,
        r is None ==> forall|k: int| 0 <= k < page_table().len() ==> #[trigger] page_table()[k].0 != name@,
{
    let names = get_page_names();
    let mut i: usize = 0;
    while i < names.len()
        invariant
            names@.len() == page_table().len(),
            forall|k: int| 0 <= k < names@.len() ==> #[trigger] names@[k]@ == page_table()[k].0,
            i <= names@.len(),
            forall|k: int| 0 <= k < i ==> #[trigger] page_table()[k].0 != name@,
        decreases names@.len() - i,
    {
        assert(names@[i as int]@ == page_table()[i as int].0);
        if str_eq(names[i], name) {
            return Some(i);
        }
        i = i + 1;
    }
    None
}

/// Some keyword occurs in some text.
pub open spec fn keywords_found(texts: Seq<Seq<char>>, keywords: Seq<Seq<char>>) -> bool {
    exists|k: int, j: int| 0 <= k < keywords.len() && 0 <= j < texts.len() && has_sub(#[trigger] texts[j], #[trigger] keywords[k])
}

/// Whether one of `keywords` occurs in one of `texts`: how the page test
/// recognises a page on a screenshot.
pub fn page_matches(texts: &[String], keywords: &[&str]) -> (r: bool)
    ensures
        r == keywords_found(crate::text::strs(texts@), strs_of(keywords@)),
{
    let mut k: usize = 0;
    while k < keywords.len()
        invariant
            k <= keywords@.len(),
            forall|a: int, j: int|
                0 <= a < k && 0 <= j < texts@.len() ==> !has_sub(#[trigger] crate::text::strs(texts@)[j], #[trigger] strs_of(keywords@)[a]),
        decreases keywords@.len() - k,
    {
        let mut j: usize = 0;
        while j < texts.len()
            invariant
                k < keywords@.len(),
                j <= texts@.len(),
                forall|a: int, b: int|
                    0 <= a < k && 0 <= b < texts@.len() ==> !has_sub(#[trigger] crate::text::strs(texts@)[b], #[trigger] strs_of(keywords@)[a]),
                forall|b: int| 0 <= b < j ==> !has_sub(#[trigger] crate::text::strs(texts@)[b], strs_of(keywords@)[k as int]),
            decreases texts@.len() - j,
        {
            if str_contains(texts[j].as_str(), keywords[k]) {
                assert(has_sub(crate::text::strs(texts@)[j as int], strs_of(keywords@)[k as int]));
                return true;
            }
            j = j + 1;
        }
        k = k + 1;
    }
    false
}

/// Whether the text read at the top of the field shows the star-of-the-show
/// event: "请选择" or "成为巨星" in one of the texts.
pub fn festivity_event_shown(texts: &[String]) -> (r: bool)
    ensures
        r == keywords_found(crate::text::strs(texts@), seq!["请选择"@, "成为巨星"@]),
{
    let kws: [&str; 2] = ["请选择", "成为巨星"];
    assert(strs_of(kws@) =~= seq!["请选择"@, "成为巨星"@]);
    page_matches(texts, &kws)
}

/// The screen that the page test checks for a page name of the catalogue;
/// the special-event page has no screen of its own.
pub open spec fn named_page(name: Seq<char>) -> Option<Page> {
    if name == "StartPage"@ {
        Some(Page::Start)
    } else if name == "GameModePage"@ {
        Some(Page::GameMode)
    } else if name == "DifficultyPage"@ {
        Some(Page::Difficulty)
    } else if name == "BossAffixPage"@ {
        Some(Page::BossAffix)
    } else if name == "PlaneSelectPage"@ {
        Some(Page::PlaneSelect)
    } else if name == "InvestEnvironmentPage"@ {
        Some(Page::InvestEnvironment)
    } else if name == "PreparationPage"@ {
        Some(Page::Preparation)
    } else if name == "ShopPage"@ {
        Some(Page::Shop)
    } else if name == "InvestStrategyPage"@ {
        Some(Page::InvestStrategy)
    } else if name == "ExitConfirmDialog"@ {
        Some(Page::ExitConfirm)
    } else if name == "ExitChallengeFailPage"@ {
        Some(Page::ExitChallengeFail)
    } else if name == "ExitStatsPage"@ {
        Some(Page::ExitStats)
    } else if name == "ExitReturnPage"@ {
        Some(Page::ExitReturn)
    } else if name == "BattleSettlementPage"@ {
        Some(Page::BattleSettlement)
    } else {
        None
    }
}

pub fn page_named(name: &str) -> (r: Option<Page>)
    ensures
        r == named_page(name@),
{
    if str_eq(name, "StartPage") {
        Some(Page::Start)
    } else if str_eq(name, "GameModePage") {
        Some(Page::GameMode)
    } else if str_eq(name, "DifficultyPage") {
        Some(Page::Difficulty)
    } else if str_eq(name, "BossAffixPage") {
        Some(Page::BossAffix)
    } else if str_eq(name, "PlaneSelectPage") {
        Some(Page::PlaneSelect)
    } else if str_eq(name, "InvestEnvironmentPage") {
        Some(Page::InvestEnvironment)
    } else if str_eq(name, "PreparationPage") {
        Some(Page::Preparation)
    } else if str_eq(name, "ShopPage") {
        Some(Page::Shop)
    } else if str_eq(name, "InvestStrategyPage") {
        Some(Page::InvestStrategy)
    } else if str_eq(name, "ExitConfirmDialog") {
        Some(Page::ExitConfirm)
    } else if str_eq(name, "ExitChallengeFailPage") {
        Some(Page::ExitChallengeFail)
    } else if str_eq(name, "ExitStatsPage") {
        Some(Page::ExitStats)
    } else if str_eq(name, "ExitReturnPage") {
        Some(Page::ExitReturn)
    } else if str_eq(name, "BattleSettlementPage") {
        Some(Page::BattleSettlement)
    } else {
        None
    }
}


/// Every page of the catalogue but the last, the special-event page, names
/// a screen that the page test checks; the special-event page names none.
pub proof fn law_catalogue_pages_have_screens(i: int)
    requires
        0 <= i < page_table().len(),
    ensures
        i < page_table().len() - 1 ==> named_page(page_table()[i].0) is Some,
        i == page_table().len() - 1 ==> named_page(page_table()[i].0) is None,
{
    reveal_strlit("StartPage");
    reveal_strlit("GameModePage");
    reveal_strlit("DifficultyPage");
    reveal_strlit("BossAffixPage");
    reveal_strlit("PlaneSelectPage");
    reveal_strlit("InvestEnvironmentPage");
    reveal_strlit("PreparationPage");
    reveal_strlit("ShopPage");
    reveal_strlit("InvestStrategyPage");
    reveal_strlit("ExitConfirmDialog");
    reveal_strlit("ExitChallengeFailPage");
    reveal_strlit("ExitStatsPage");
    reveal_strlit("ExitReturnPage");
    reveal_strlit("BattleSettlementPage");
    reveal_strlit("SpecialEventPage");
    if i == page_table().len() - 1 {
        assert(page_table()[i].0 == "SpecialEventPage"@);
        assert("SpecialEventPage"@.len() == 16);
        assert("StartPage"@.len() == 9);
        assert("GameModePage"@.len() == 12);
        assert("DifficultyPage"@.len() == 14);
        assert("BossAffixPage"@.len() == 13);
        assert("PlaneSelectPage"@.len() == 15);
        assert("InvestEnvironmentPage"@.len() == 21);
        assert("PreparationPage"@.len() == 15);
        assert("ShopPage"@.len() == 8);
        assert("InvestStrategyPage"@.len() == 18);
        assert("ExitConfirmDialog"@.len() == 17);
        assert("ExitChallengeFailPage"@.len() == 21);
        assert("ExitStatsPage"@.len() == 13);
        assert("ExitReturnPage"@.len() == 14);
        assert("BattleSettlementPage"@.len() == 20);
    }
}

} // verus!
