use srcwroller::selection::{OpeningConfig, SelectionManager};

#[test]
fn test_opening_config() {
    let config1 = OpeningConfig::new(
        vec!["专家研讨会".to_string(), "特邀专家".to_string()],
        vec!["快请专家".to_string()],
        vec!["变宝为废".to_string()],
    );
    
    let config2 = OpeningConfig::new(
        vec![],
        vec!["轮回不止".to_string()],
        vec![],
    );
    
    let config3 = OpeningConfig::new(
        vec![],
        vec![],
        vec![],
    );
    
    assert!(config1.has_env_requirement());
    assert!(config1.has_strategy_requirement());
    assert!(config1.has_affix_requirement());
    
    assert!(!config2.has_env_requirement());
    assert!(config2.has_strategy_requirement());
    assert!(!config2.has_affix_requirement());
    
    assert!(!config3.has_env_requirement());
    assert!(!config3.has_strategy_requirement());
    assert!(!config3.has_affix_requirement());
    
    assert!(config1.check_env("专家研讨会"));
    assert!(config1.check_env("特邀专家"));
    assert!(!config1.check_env("彩虹时代"));
    
    assert!(config2.check_env("任意环境"));
    assert!(config3.check_env("任意环境"));
    
    assert!(config1.check_affix(&["变宝为废".to_string(), "其他词条".to_string()]));
    assert!(!config1.check_affix(&["其他词条".to_string()]));
    assert!(config2.check_affix(&["任意词条".to_string()]));
    
    assert!(config1.check_strategy("快请专家"));
    assert!(!config1.check_strategy("轮回不止"));
    assert!(config2.check_strategy("轮回不止"));
    assert!(config3.check_strategy("任意策略"));
}

#[test]
fn test_selection_manager_basic() {
    let openings = vec![
        OpeningConfig::new(
            vec!["专家研讨会".to_string()],
            vec!["快请专家".to_string()],
            vec![],
        ),
        OpeningConfig::new(
            vec![],
            vec!["轮回不止".to_string()],
            vec!["变宝为废".to_string()],
        ),
    ];
    
    let prefer_env = vec!["彩虹时代".to_string(), "头彩".to_string()];
    
    let manager = SelectionManager::new(openings, prefer_env);
    
    assert_eq!(manager.get_active_count(), 2);
    assert!(manager.has_active_openings());
    assert!(manager.has_wanted_envs());
    assert!(manager.has_wanted_strategies());
    
    let wanted_envs = manager.get_all_wanted_envs();
    assert!(wanted_envs.contains(&"专家研讨会".to_string()));
    
    let wanted_strategies = manager.get_all_wanted_strategies();
    assert!(wanted_strategies.contains(&"快请专家".to_string()));
    assert!(wanted_strategies.contains(&"轮回不止".to_string()));
}

#[test]
fn test_selection_manager_filter() {
    let openings = vec![
        OpeningConfig::new(
            vec!["专家研讨会".to_string()],
            vec!["快请专家".to_string()],
            vec!["变宝为废".to_string()],
        ),
        OpeningConfig::new(
            vec!["彩虹时代".to_string()],
            vec!["轮回不止".to_string()],
            vec!["变宝为废".to_string()],
        ),
        OpeningConfig::new(
            vec![],
            vec!["轮回不止".to_string()],
            vec![],
        ),
    ];
    
    let mut manager = SelectionManager::new(openings, vec![]);
    
    assert_eq!(manager.get_active_count(), 3);
    
    manager.filter_by_env("专家研讨会");
    assert_eq!(manager.get_active_count(), 2);
    
    manager.reset();
    assert_eq!(manager.get_active_count(), 3);
    
    manager.filter_by_affix(&["变宝为废".to_string()]);
    assert_eq!(manager.get_active_count(), 3);
    
    let openings_with_affix = vec![
        OpeningConfig::new(
            vec![],
            vec!["快请专家".to_string()],
            vec!["变宝为废".to_string()],
        ),
        OpeningConfig::new(
            vec![],
            vec!["轮回不止".to_string()],
            vec!["其他词条".to_string()],
        ),
        OpeningConfig::new(
            vec![],
            vec!["其他策略".to_string()],
            vec![],
        ),
    ];
    
    let mut manager2 = SelectionManager::new(openings_with_affix, vec![]);
    
    manager2.filter_by_affix(&["变宝为废".to_string()]);
    assert_eq!(manager2.get_active_count(), 2);
    
    manager2.reset();
    manager2.filter_by_strategy("轮回不止");
    assert_eq!(manager2.get_active_count(), 1);
}

#[test]
fn test_selection_manager_select_env() {
    let openings = vec![
        OpeningConfig::new(
            vec!["专家研讨会".to_string()],
            vec!["快请专家".to_string()],
            vec![],
        ),
        OpeningConfig::new(
            vec![],
            vec!["轮回不止".to_string()],
            vec![],
        ),
    ];
    
    let prefer_env = vec!["彩虹时代".to_string(), "头彩".to_string()];
    let mut manager = SelectionManager::new(openings, prefer_env);
    
    let env_names = vec![
        "专家研讨会".to_string(),
        "彩虹时代".to_string(),
        "其他环境".to_string(),
    ];
    
    let (_, name, reason) = manager.select_env(&env_names, false, false);
    assert_eq!(reason, "target");
    assert_eq!(name, "专家研讨会");
    
    manager.reset();
    let (_, _, reason) = manager.select_env(&env_names, true, false);
    assert_eq!(reason, "target");
    
    let env_names_no_match = vec![
        "未知环境1".to_string(),
        "未知环境2".to_string(),
    ];
    
    manager.reset();
    let (_, _, reason) = manager.select_env(&env_names_no_match, true, false);
    assert_eq!(reason, "random");
    
    let empty: Vec<String> = vec![];
    manager.reset();
    let (idx, _, _) = manager.select_env(&empty, false, false);
    assert_eq!(idx, -1);
}

#[test]
fn test_selection_manager_select_strategy() {
    let openings = vec![
        OpeningConfig::new(
            vec!["专家研讨会".to_string()],
            vec!["快请专家".to_string()],
            vec![],
        ),
        OpeningConfig::new(
            vec![],
            vec!["轮回不止".to_string()],
            vec![],
        ),
    ];
    
    let mut manager = SelectionManager::new(openings, vec![]);
    
    let strategy_names = vec![
        "快请专家".to_string(),
        "轮回不止".to_string(),
        "其他策略".to_string(),
    ];
    
    manager.reset();
    let (_, _, reason) = manager.select_strategy(&strategy_names, false);
    assert_eq!(reason, "target");
    
    let strategy_names_no_match = vec![
        "未知策略1".to_string(),
        "未知策略2".to_string(),
    ];
    
    manager.reset();
    let (_, _, reason) = manager.select_strategy(&strategy_names_no_match, false);
    assert_eq!(reason, "random");
}

#[test]
fn wanted_lists_are_sorted_without_repeats() {
    let openings = vec![
        OpeningConfig::new(vec!["b".to_string(), "a".to_string()], vec!["y".to_string()], vec![]),
        OpeningConfig::new(vec!["a".to_string(), "c".to_string()], vec!["x".to_string(), "y".to_string()], vec![]),
    ];
    let manager = SelectionManager::new(openings, vec![]);
    assert_eq!(manager.get_all_wanted_envs(), vec!["a".to_string(), "b".to_string(), "c".to_string()]);
    assert_eq!(manager.get_all_wanted_strategies(), vec!["x".to_string(), "y".to_string()]);
}

#[test]
fn narrowing_twice_or_in_either_order_is_the_same() {
    let openings = vec![
        OpeningConfig::new(vec!["专家研讨会".to_string()], vec!["快请专家".to_string()], vec![]),
        OpeningConfig::new(vec!["彩虹时代".to_string()], vec!["轮回不止".to_string()], vec![]),
        OpeningConfig::new(vec![], vec!["轮回不止".to_string()], vec![]),
    ];
    let mut a = SelectionManager::new(openings.clone(), vec![]);
    let mut b = SelectionManager::new(openings, vec![]);
    a.filter_by_env("专家研讨会");
    let once = a.get_active_count();
    a.filter_by_env("专家研讨会");
    assert_eq!(a.get_active_count(), once);
    a.filter_by_strategy("轮回不止");
    b.filter_by_strategy("轮回不止");
    b.filter_by_env("专家研讨会");
    assert_eq!(a.get_active_count(), 1);
    assert_eq!(b.get_active_count(), 1);
    assert_eq!(a.active_openings[0].env.len(), 0);
    assert_eq!(b.active_openings[0].env.len(), 0);
}

#[test]
fn choices_prefer_wanted_then_preferred_cards() {
    let openings = vec![OpeningConfig::new(vec!["专家".to_string()], vec![], vec![])];
    let mut m = SelectionManager::new(openings, vec!["彩虹".to_string()]);
    let names = vec!["彩虹时代".to_string(), "特邀专家".to_string()];
    assert_eq!(m.select_env_with_pick(&names, true, false, 0), (1, "特邀专家".to_string(), "target".to_string()));
    let names = vec!["蓝海".to_string(), "彩虹时代".to_string()];
    assert_eq!(m.select_env_with_pick(&names, true, false, 0), (1, "彩虹时代".to_string(), "prefer".to_string()));
    assert_eq!(m.select_env_with_pick(&names, false, true, 0), (0, "蓝海".to_string(), "random".to_string()));
    assert_eq!(m.get_active_count(), 0);
    m.reset();
    assert_eq!(m.get_active_count(), 1);
    let empty: Vec<String> = vec![];
    assert_eq!(m.select_strategy_with_pick(&empty, true, 0), (-1, String::new(), String::new()));
    let names = vec!["a".to_string(), "b".to_string()];
    assert_eq!(m.select_strategy_with_pick(&names, false, 1), (1, "b".to_string(), "random".to_string()));
    assert!(m.env_needs_draw(&names, true));
    assert!(!m.env_needs_draw(&["x专家".to_string()], false));
    let (i, _, reason) = m.select_env(&names, true, false);
    assert!(i == 0 || i == 1);
    assert_eq!(reason, "random");
}

#[test]
fn narrowed_openings_keep_the_configured_order() {
    let openings = vec![
        OpeningConfig::new(vec!["甲环境".to_string()], vec![], vec![]),
        OpeningConfig::new(vec!["乙环境".to_string()], vec![], vec![]),
        OpeningConfig::new(vec![], vec!["快请专家".to_string()], vec![]),
        OpeningConfig::new(vec!["甲环境".to_string()], vec!["轮回不止".to_string()], vec![]),
    ];
    let mut m = SelectionManager::new(openings, vec![]);
    m.filter_by_env("甲环境");
    assert_eq!(m.get_active_count(), 3);
    let kinds: Vec<usize> = m.active_openings.iter().map(|o| o.env.len() + 2 * o.strategy.len()).collect();
    assert_eq!(kinds, vec![1, 2, 3]);
    m.filter_by_strategy("轮回不止");
    assert_eq!(m.get_active_count(), 2);
    assert_eq!(m.active_openings[0].env, vec!["甲环境".to_string()]);
    assert_eq!(m.active_openings[1].strategy, vec!["轮回不止".to_string()]);
    m.reset();
    assert_eq!(m.get_active_count(), 4);
}
