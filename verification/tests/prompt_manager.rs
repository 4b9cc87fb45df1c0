use agent_workbench::prompt_blocks::{build_system_prompt_text_uncached, prompt_xml_block, REMOTE_CONTACT_RULES};
use agent_workbench::prompt_cache::PromptCache;
use agent_workbench::prompt_manager::{
    build_system_prompt_ordered_blocks, conversation_environment_prompt_cache,
    department_system_prompt_cache, finalize_system_prompt_with_manager,
    get_or_build_conversation_environment_prompt_snapshot,
    get_or_build_department_system_prompt_snapshot, system_prompt_cache, PromptBuildInputs,
    PromptCaches,
};
use agent_workbench::prompt_types::{
    AgentProfile, AppState, Conversation, DepartmentConfig, DepartmentPermissionControl,
};

fn strings(items: &[&str]) -> Vec<String> {
    items.iter().map(|s| s.to_string()).collect()
}

fn state() -> AppState {
    AppState {
        data_path: "/data".to_string(),
        terminal_shell_kind: "bash".to_string(),
        terminal_shell_path: "/bin/bash".to_string(),
    }
}

fn agent() -> AgentProfile {
    AgentProfile { id: "agent-1".to_string(), name: "Ada".to_string(), system_prompt: "p".to_string() }
}

fn conversation(remote: bool) -> Conversation {
    Conversation {
        id: "conv-1".to_string(),
        conversation_kind: "chat".to_string(),
        shell_workspace_path: None,
        shell_workspaces: Vec::new(),
        messages: Vec::new(),
        remote_im_contact: remote,
    }
}

fn department() -> DepartmentConfig {
    DepartmentConfig {
        id: "d1".to_string(),
        updated_at: "u".to_string(),
        name: "Dept".to_string(),
        summary: "s".to_string(),
        guide: "g".to_string(),
        agent_ids: strings(&["agent-1"]),
        order_index: 0,
        permission_control: DepartmentPermissionControl {
            enabled: false,
            mode: "all".to_string(),
            builtin_tool_names: Vec::new(),
            skill_names: Vec::new(),
            mcp_tool_names: Vec::new(),
        },
    }
}

fn inputs(block: &str, at: &str) -> PromptBuildInputs {
    PromptBuildInputs {
        department_prompt_block: block.to_string(),
        department_tool_rule_blocks: strings(&[" dept tool rule "]),
        remember_enabled: true,
        recall_enabled: false,
        plan_enabled: false,
        meme_enabled: true,
        memory_rules: "memory rules".to_string(),
        planning_rules: "plan rules".to_string(),
        meme_rules: Some("  meme rules  ".to_string()),
        rebuilt_at: at.to_string(),
    }
}

#[test]
fn prompt_cache_insert_replaces_and_get_finds() {
    let mut cache: PromptCache<u64> = PromptCache::new();
    assert_eq!(cache.get("k"), None);
    cache.insert("k".to_string(), 1);
    cache.insert("j".to_string(), 2);
    cache.insert("k".to_string(), 3);
    assert_eq!(cache.get("k"), Some(&3));
    assert_eq!(cache.get("j"), Some(&2));
    assert_eq!(cache.get("x"), None);
}

#[test]
fn department_part_is_served_from_cache_on_repeat() {
    let mut caches = PromptCaches::new();
    let ds = vec![department()];
    let conv = conversation(false);
    let st = state();
    let first = get_or_build_department_system_prompt_snapshot(
        &mut caches,
        Some(&st),
        &conv,
        &agent(),
        &ds,
        Some(&ds[0]),
        "zh",
        &inputs("first block", "t1"),
    );
    assert_eq!(first.system_prompt_text, "first block\ndept tool rule");
    assert_eq!(first.rebuilt_at, "t1");
    let second = get_or_build_department_system_prompt_snapshot(
        &mut caches,
        Some(&st),
        &conv,
        &agent(),
        &ds,
        Some(&ds[0]),
        "zh",
        &inputs("second block", "t2"),
    );
    assert_eq!(second.department_prompt_block, "first block");
    assert_eq!(second.rebuilt_at, "t1");
    let other_language = get_or_build_department_system_prompt_snapshot(
        &mut caches,
        Some(&st),
        &conv,
        &agent(),
        &ds,
        Some(&ds[0]),
        "en",
        &inputs("third block", "t3"),
    );
    assert_eq!(other_language.department_prompt_block, "third block");
    assert_eq!(other_language.rebuilt_at, "t3");
}

#[test]
fn environment_part_is_served_from_cache_on_repeat() {
    let mut caches = PromptCaches::new();
    let conv = conversation(true);
    let first = get_or_build_conversation_environment_prompt_snapshot(
        &mut caches,
        None,
        &conv,
        "zh",
        Some("terminal"),
        &strings(&["r"]),
        &[],
        "t1",
    );
    let rules = prompt_xml_block("remote im contact rules", REMOTE_CONTACT_RULES);
    assert_eq!(first.runtime_blocks, strings(&["terminal", "r"]));
    assert_eq!(first.im_rule_blocks, vec![rules]);
    let again = get_or_build_conversation_environment_prompt_snapshot(
        &mut caches,
        None,
        &conv,
        "zh",
        Some("terminal"),
        &strings(&["r"]),
        &[],
        "t2",
    );
    assert_eq!(again.rebuilt_at, "t1");
    let changed = get_or_build_conversation_environment_prompt_snapshot(
        &mut caches,
        None,
        &conv,
        "zh",
        Some("other terminal"),
        &strings(&["r"]),
        &[],
        "t3",
    );
    assert_eq!(changed.rebuilt_at, "t3");
    assert_eq!(changed.runtime_blocks, strings(&["other terminal", "r"]));
}

#[test]
fn ordered_blocks_follow_the_documented_order() {
    let mut caches = PromptCaches::new();
    let ds = vec![department()];
    let conv = conversation(false);
    let preamble = strings(&[
        "runtime extra",
        "<skill usage> skills",
        "<remote im runtime activation> im",
        "  ",
    ]);
    let blocks = build_system_prompt_ordered_blocks(
        &mut caches,
        None,
        &conv,
        &agent(),
        &ds,
        Some(&ds[0]),
        "zh",
        "  fixed text  ",
        Some(" profile "),
        Some("terminal"),
        &preamble,
        &inputs(" dept block ", "t"),
    );
    assert_eq!(
        blocks,
        strings(&[
            "fixed text",
            "dept block",
            "memory rules",
            "dept tool rule",
            "meme rules",
            "<skill usage> skills",
            "profile",
            "terminal",
            "runtime extra",
            "<remote im runtime activation> im",
        ])
    );
}

#[test]
fn ordered_blocks_skip_blank_parts() {
    let mut caches = PromptCaches::new();
    let conv = conversation(false);
    let blank_inputs = PromptBuildInputs {
        department_prompt_block: "   ".to_string(),
        department_tool_rule_blocks: Vec::new(),
        remember_enabled: false,
        recall_enabled: false,
        plan_enabled: true,
        meme_enabled: false,
        memory_rules: "memory rules".to_string(),
        planning_rules: "plan rules".to_string(),
        meme_rules: Some("meme rules".to_string()),
        rebuilt_at: "t".to_string(),
    };
    let blocks = build_system_prompt_ordered_blocks(
        &mut caches,
        None,
        &conv,
        &agent(),
        &[],
        None,
        "zh",
        "  ",
        Some("   "),
        None,
        &[],
        &blank_inputs,
    );
    assert_eq!(blocks, strings(&["plan rules"]));
}

#[test]
fn finalize_builds_then_serves_the_cached_prompt() {
    let mut caches = PromptCaches::new();
    let ds = vec![department()];
    let conv = conversation(false);
    let st = state();
    let first = finalize_system_prompt_with_manager(
        &mut caches,
        Some(&st),
        "chat",
        &conv,
        &agent(),
        &ds,
        Some(&ds[0]),
        "zh",
        "fixed",
        None,
        None,
        &[],
        &inputs("dept", "t1"),
    );
    assert_eq!(first, "fixed\ndept\nmemory rules\ndept tool rule\nmeme rules\n");
    let expected = build_system_prompt_text_uncached(&strings(&[
        "fixed",
        "dept",
        "memory rules",
        "dept tool rule",
        "meme rules",
    ]));
    assert_eq!(first, expected);
    // The department block of the repeat is not read: the cached department part serves.
    let second = finalize_system_prompt_with_manager(
        &mut caches,
        Some(&st),
        "chat",
        &conv,
        &agent(),
        &ds,
        Some(&ds[0]),
        "zh",
        "fixed",
        None,
        None,
        &[],
        &inputs("another dept block", "t2"),
    );
    assert_eq!(second, first);
}

#[test]
fn finalize_rebuilds_when_rules_change() {
    let mut caches = PromptCaches::new();
    let conv = conversation(false);
    let first = finalize_system_prompt_with_manager(
        &mut caches, None, "chat", &conv, &agent(), &[], None, "zh", "fixed", None, None, &[],
        &inputs("dept", "t1"),
    );
    let mut changed = inputs("dept", "t2");
    changed.remember_enabled = false;
    let second = finalize_system_prompt_with_manager(
        &mut caches, None, "chat", &conv, &agent(), &[], None, "zh", "fixed", None, None, &[],
        &changed,
    );
    assert_eq!(first, "fixed\ndept\nmemory rules\ndept tool rule\nmeme rules\n");
    assert_eq!(second, "fixed\ndept\ndept tool rule\nmeme rules\n");
}

#[test]
fn cache_accessors_reach_each_cache() {
    let mut caches = PromptCaches::new();
    let conv = conversation(false);
    let _ = finalize_system_prompt_with_manager(
        &mut caches, None, "chat", &conv, &agent(), &[], None, "zh", "fixed", None, None, &[],
        &inputs("dept", "t1"),
    );
    let dept_hit = department_system_prompt_cache(&mut caches)
        .get("scope=<global>|agent=agent-1|ui=zh|departments=|context=department_context=none")
        .map(|s| s.rebuilt_at.clone());
    assert_eq!(dept_hit, Some("t1".to_string()));
    let env_hit = conversation_environment_prompt_cache(&mut caches)
        .get("scope=<global>|ui=zh|shell=no_state|conversation_id=conv-1|kind=chat|root=|workspaces=|terminal=|runtime_extra=|im_extra=|remote_contact=false")
        .map(|s| s.rebuilt_at.clone());
    assert_eq!(env_hit, Some("t1".to_string()));
    let key = "scope=<global>|mode=chat|agent=agent-1|ordered_blocks=fixed\n<block-sep>\ndept\n<block-sep>\nmemory rules\n<block-sep>\ndept tool rule\n<block-sep>\nmeme rules";
    let sys_hit = system_prompt_cache(&mut caches).get(key).map(|e| e.prompt_text.clone());
    assert_eq!(sys_hit, Some("fixed\ndept\nmemory rules\ndept tool rule\nmeme rules\n".to_string()));
}

fn tool_rules_for(flags: (bool, bool, bool, bool), meme: Option<&str>) -> Vec<String> {
    let mut caches = PromptCaches::new();
    let conv = conversation(false);
    let mut inp = inputs("", "t");
    inp.department_tool_rule_blocks = Vec::new();
    inp.remember_enabled = flags.0;
    inp.recall_enabled = flags.1;
    inp.plan_enabled = flags.2;
    inp.meme_enabled = flags.3;
    inp.meme_rules = meme.map(|m| m.to_string());
    build_system_prompt_ordered_blocks(
        &mut caches, None, &conv, &agent(), &[], None, "zh", "", None, None, &[], &inp,
    )
}

#[test]
fn tool_rules_follow_the_enabled_tools() {
    assert_eq!(tool_rules_for((false, false, false, false), Some("m")), Vec::<String>::new());
    assert_eq!(tool_rules_for((true, false, false, false), None), strings(&["memory rules"]));
    assert_eq!(tool_rules_for((false, true, false, false), None), strings(&["memory rules"]));
    assert_eq!(tool_rules_for((true, true, false, false), None), strings(&["memory rules"]));
    assert_eq!(tool_rules_for((false, false, true, false), None), strings(&["plan rules"]));
    assert_eq!(tool_rules_for((false, false, false, true), Some(" m ")), strings(&["m"]));
    assert_eq!(tool_rules_for((false, false, false, true), None), Vec::<String>::new());
    assert_eq!(
        tool_rules_for((true, false, true, true), Some("m")),
        strings(&["memory rules", "plan rules", "m"])
    );
}
