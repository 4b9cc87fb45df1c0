use agent_workbench::prompt_blocks::{
    append_system_prompt_block, build_conversation_environment_prompt_snapshot_uncached,
    build_core_system_prompt_text, build_department_system_prompt_snapshot_uncached,
    build_system_prompt_text_uncached, classify_system_prompt_extra_block, prompt_xml_block,
    split_system_preamble_blocks, xml_escape_prompt, REMOTE_CONTACT_RULES,
};
use agent_workbench::prompt_types::{
    AgentProfile, Conversation, ResponseStyle, SystemPromptExtraBlockGroup,
};

fn strings(items: &[&str]) -> Vec<String> {
    items.iter().map(|s| s.to_string()).collect()
}

fn conversation(remote: bool) -> Conversation {
    Conversation {
        id: "c1".to_string(),
        conversation_kind: "chat".to_string(),
        shell_workspace_path: None,
        shell_workspaces: Vec::new(),
        messages: Vec::new(),
        remote_im_contact: remote,
    }
}

fn agent() -> AgentProfile {
    AgentProfile {
        id: "a1".to_string(),
        name: "Ada <bot>".to_string(),
        system_prompt: "  You are careful.  ".to_string(),
    }
}

fn style() -> ResponseStyle {
    ResponseStyle { name: "简洁".to_string(), prompt: "Keep it short.".to_string() }
}

#[test]
fn xml_block_wraps_content_in_tags() {
    assert_eq!(prompt_xml_block("rules", "be kind"), "<rules>\nbe kind\n</rules>");
    assert_eq!(prompt_xml_block("x", ""), "<x>\n\n</x>");
}

#[test]
fn xml_escape_replaces_markup_characters() {
    assert_eq!(
        xml_escape_prompt("<a & 'b'> \"c\""),
        "&lt;a &amp; &apos;b&apos;&gt; &quot;c&quot;"
    );
    assert_eq!(xml_escape_prompt("plain 文本"), "plain 文本");
}

#[test]
fn classify_by_tags() {
    assert_eq!(
        classify_system_prompt_extra_block("  <remote im runtime activation> on"),
        SystemPromptExtraBlockGroup::ImRules
    );
    assert_eq!(
        classify_system_prompt_extra_block("use <skill usage> here"),
        SystemPromptExtraBlockGroup::ToolRules
    );
    assert_eq!(
        classify_system_prompt_extra_block("<skill index>"),
        SystemPromptExtraBlockGroup::ToolRules
    );
    assert_eq!(
        classify_system_prompt_extra_block("<todo guide>"),
        SystemPromptExtraBlockGroup::ToolRules
    );
    assert_eq!(
        classify_system_prompt_extra_block("<skill usage><remote im runtime activation>"),
        SystemPromptExtraBlockGroup::ImRules
    );
    assert_eq!(
        classify_system_prompt_extra_block("date: today"),
        SystemPromptExtraBlockGroup::Runtime
    );
}

#[test]
fn split_keeps_order_and_drops_blank_blocks() {
    let blocks = strings(&[
        " <skill index> a ",
        "runtime one",
        "   ",
        "<remote im runtime activation>",
        "<todo guide>",
        " runtime two ",
    ]);
    let (tools, runtime, im) = split_system_preamble_blocks(&blocks);
    assert_eq!(tools, strings(&["<skill index> a", "<todo guide>"]));
    assert_eq!(runtime, strings(&["runtime one", "runtime two"]));
    assert_eq!(im, strings(&["<remote im runtime activation>"]));
    assert_eq!(tools.len() + runtime.len() + im.len(), 5);
}

#[test]
fn department_snapshot_joins_trimmed_sections() {
    let snap = build_department_system_prompt_snapshot_uncached(
        "  dept block ".to_string(),
        strings(&[" rule one ", "", "rule two"]),
        "2024-01-01T00:00:00Z",
    );
    assert_eq!(snap.system_prompt_text, "dept block\nrule one\nrule two");
    assert_eq!(snap.department_prompt_block, "  dept block ");
    assert_eq!(snap.department_tool_rule_blocks, strings(&[" rule one ", "", "rule two"]));
    assert_eq!(snap.rebuilt_at, "2024-01-01T00:00:00Z");
}

#[test]
fn department_snapshot_skips_blank_block() {
    let snap = build_department_system_prompt_snapshot_uncached(
        "   ".to_string(),
        strings(&["only rule"]),
        "t",
    );
    assert_eq!(snap.system_prompt_text, "only rule");
}

#[test]
fn environment_snapshot_for_local_conversation() {
    let snap = build_conversation_environment_prompt_snapshot_uncached(
        &conversation(false),
        Some("  shell: bash "),
        &strings(&[" r1 ", ""]),
        &strings(&[" i1 "]),
        "t1",
    );
    assert_eq!(snap.runtime_blocks, strings(&["shell: bash", "r1"]));
    assert_eq!(snap.im_rule_blocks, strings(&["i1"]));
    assert_eq!(snap.system_prompt_text, "shell: bash\nr1\ni1");
    assert_eq!(snap.rebuilt_at, "t1");
}

#[test]
fn environment_snapshot_for_remote_contact_starts_with_contact_rules() {
    let snap = build_conversation_environment_prompt_snapshot_uncached(
        &conversation(true),
        Some("   "),
        &[],
        &strings(&["i1"]),
        "t2",
    );
    let rules = prompt_xml_block("remote im contact rules", REMOTE_CONTACT_RULES);
    assert!(snap.runtime_blocks.is_empty());
    assert_eq!(snap.im_rule_blocks, vec![rules.clone(), "i1".to_string()]);
    assert_eq!(snap.system_prompt_text, format!("{}\ni1", rules));
    assert!(snap.system_prompt_text.contains("remote_im_send"));
}

#[test]
fn append_block_cases() {
    let mut target = String::new();
    append_system_prompt_block(&mut target, None);
    assert_eq!(target, "");
    append_system_prompt_block(&mut target, Some("   "));
    assert_eq!(target, "");
    append_system_prompt_block(&mut target, Some("  first "));
    assert_eq!(target, "first\n");
    append_system_prompt_block(&mut target, Some("second"));
    assert_eq!(target, "first\nsecond\n");

    let mut no_newline = "head".to_string();
    append_system_prompt_block(&mut no_newline, Some("tail"));
    assert_eq!(no_newline, "head\ntail\n");

    let mut blank = "  ".to_string();
    append_system_prompt_block(&mut blank, Some("x"));
    assert_eq!(blank, "  x\n");
}

#[test]
fn prompt_text_is_trimmed_nonblank_lines() {
    let text = build_system_prompt_text_uncached(&strings(&[" a ", "  ", "b\n", ""]));
    assert_eq!(text, "a\nb\n");
    assert_eq!(build_system_prompt_text_uncached(&[]), "");
}

#[test]
fn core_prompt_with_user_profile() {
    let text = build_core_system_prompt_text(
        &conversation(false),
        &agent(),
        &[],
        Some(("Bob & co", "  ")),
        &style(),
        "今天是 2024-01-01",
        "# Highest",
        None,
    );
    let expected = [
        "# Highest".to_string(),
        prompt_xml_block("persona settings", "You are careful."),
        prompt_xml_block("admin user settings", "用户昵称：Bob &amp; co\n用户自我介绍：未提供"),
        prompt_xml_block(
            "role constraints",
            "- 你是“Ada &lt;bot&gt;”，用户是“Bob &amp; co”。\n- 不要把自己当作用户，不要混淆双方身份。",
        ),
        prompt_xml_block("conversation style", "当前风格：简洁\nKeep it short."),
        prompt_xml_block(
            "language settings",
            "默认使用中文回答。\n- 若用户明确指定回答语言，以用户指定为准。\n今天是 2024-01-01",
        ),
    ]
    .join("\n");
    assert_eq!(text, expected);
}

#[test]
fn core_prompt_for_delegate_thread() {
    let text = build_core_system_prompt_text(
        &conversation(false),
        &agent(),
        &[],
        None,
        &style(),
        "date line",
        "# Top",
        None,
    );
    let expected = [
        "# Top".to_string(),
        prompt_xml_block("persona settings", "You are careful."),
        prompt_xml_block(
            "role constraints",
            "- 这是一条委托线程。此线程不存在默认用户人格。\n- 只依据本轮委托任务块与本线程历史处理工作，不要自行补充用户设定、昵称或主会话背景。",
        ),
        prompt_xml_block("conversation style", "当前风格：简洁\nKeep it short."),
        prompt_xml_block("language settings", "默认使用中文回答。\ndate line"),
    ]
    .join("\n");
    assert_eq!(text, expected);
}

#[test]
fn core_prompt_shows_trimmed_introduction() {
    let text = build_core_system_prompt_text(
        &conversation(false),
        &agent(),
        &[],
        Some(("Bob", "  likes <tea>  ")),
        &style(),
        "d",
        "h",
        None,
    );
    assert!(text.contains("用户自我介绍：likes &lt;tea&gt;\n"));
}
