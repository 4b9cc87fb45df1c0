use agent_workbench::prompt_keys::{
    build_conversation_environment_prompt_cache_key, build_department_system_prompt_cache_key,
    build_system_prompt_cache_key, conversation_department_context_signature,
    conversation_shell_runtime_signature, conversation_workspace_runtime_signature,
    department_permission_control_signature, department_runtime_signature,
    departments_runtime_signature, prompt_cache_scope_key,
};
use agent_workbench::prompt_types::{
    AgentProfile, AppState, Conversation, ConversationMessage, DepartmentConfig,
    DepartmentPermissionControl, ShellWorkspace, UserMessageMeta,
};

fn strings(items: &[&str]) -> Vec<String> {
    items.iter().map(|s| s.to_string()).collect()
}

fn control() -> DepartmentPermissionControl {
    DepartmentPermissionControl {
        enabled: true,
        mode: " strict ".to_string(),
        builtin_tool_names: strings(&[" remember ", "", "plan"]),
        skill_names: strings(&[]),
        mcp_tool_names: strings(&["  ", "search"]),
    }
}

fn department(id: &str, order_index: i64) -> DepartmentConfig {
    DepartmentConfig {
        id: format!(" {} ", id),
        updated_at: "2024-05-01".to_string(),
        name: "Research".to_string(),
        summary: " finds things ".to_string(),
        guide: "be precise".to_string(),
        agent_ids: strings(&["a1", " ", " a2 "]),
        order_index,
        permission_control: control(),
    }
}

fn state() -> AppState {
    AppState {
        data_path: "/data/app".to_string(),
        terminal_shell_kind: " bash ".to_string(),
        terminal_shell_path: "/bin/bash ".to_string(),
    }
}

fn agent() -> AgentProfile {
    AgentProfile {
        id: " agent-1 ".to_string(),
        name: "Ada".to_string(),
        system_prompt: "You help.".to_string(),
    }
}

fn message(role: &str, meta: Option<UserMessageMeta>) -> ConversationMessage {
    ConversationMessage { prompt_role: Some(role.to_string()), provider_meta: meta }
}

fn conversation(messages: Vec<ConversationMessage>) -> Conversation {
    Conversation {
        id: " conv-9 ".to_string(),
        conversation_kind: "chat".to_string(),
        shell_workspace_path: Some("  /work  ".to_string()),
        shell_workspaces: vec![ShellWorkspace {
            id: "w1".to_string(),
            path: " /work ".to_string(),
            level: "main".to_string(),
            access: "rw".to_string(),
            name: "Work".to_string(),
            built_in: true,
        }],
        messages,
        remote_im_contact: false,
    }
}

#[test]
fn scope_key_is_data_path_or_global() {
    assert_eq!(prompt_cache_scope_key(None), "<global>");
    let st = state();
    assert_eq!(prompt_cache_scope_key(Some(&st)), "/data/app");
}

#[test]
fn permission_signature_trims_and_drops_blank_names() {
    assert_eq!(
        department_permission_control_signature(&control()),
        "enabled=true|mode=strict|builtin=remember,plan|skill=|mcp=search"
    );
    let mut off = control();
    off.enabled = false;
    off.builtin_tool_names = Vec::new();
    assert_eq!(
        department_permission_control_signature(&off),
        "enabled=false|mode=strict|builtin=|skill=|mcp=search"
    );
}

#[test]
fn department_signature_lists_fields_in_order() {
    assert_eq!(
        department_runtime_signature(&department("d1", 7)),
        "d1|2024-05-01|Research|finds things|be precise|a1,a2|7|enabled=true|mode=strict|builtin=remember,plan|skill=|mcp=search"
    );
}

#[test]
fn department_signature_writes_negative_order_index() {
    let sig = department_runtime_signature(&department("d2", -42));
    assert!(sig.contains("|a1,a2|-42|enabled=true"));
    let sig = department_runtime_signature(&department("d3", i64::MIN));
    assert!(sig.contains("|-9223372036854775808|"));
}

#[test]
fn departments_signature_joins_with_double_bar() {
    let ds = vec![department("d1", 1), department("d2", 2)];
    let one = department_runtime_signature(&ds[0]);
    let two = department_runtime_signature(&ds[1]);
    assert_eq!(departments_runtime_signature(&ds), format!("{}||{}", one, two));
    assert_eq!(departments_runtime_signature(&[]), "");
}

#[test]
fn context_signature_without_department() {
    let conv = conversation(vec![message("user", None)]);
    assert_eq!(conversation_department_context_signature(&conv, None), "department_context=none");
}

#[test]
fn context_signature_without_metadata_is_default() {
    let d = department("d1", 1);
    let conv = conversation(vec![message("assistant", None)]);
    assert_eq!(
        conversation_department_context_signature(&conv, Some(&d)),
        "department_context=default|target=d1|call_stack="
    );
}

#[test]
fn context_signature_uses_latest_user_message_and_sorts_call_stack() {
    let d = department("d1", 1);
    let older = UserMessageMeta {
        target_department_id: Some("old".to_string()),
        call_stack: strings(&["x"]),
    };
    let latest = UserMessageMeta {
        target_department_id: Some(" d7 ".to_string()),
        call_stack: strings(&["zeta", " alpha ", "", "beta"]),
    };
    let conv = conversation(vec![
        message("user", Some(older)),
        message("user", Some(latest)),
        message("assistant", None),
    ]);
    assert_eq!(
        conversation_department_context_signature(&conv, Some(&d)),
        "department_context=provider_meta|target=d7|current=d1|call_stack=alpha,beta,zeta"
    );
}

#[test]
fn context_signature_with_metadata_without_target() {
    let d = department("d1", 1);
    let meta = UserMessageMeta { target_department_id: None, call_stack: Vec::new() };
    let conv = conversation(vec![message("user", Some(meta))]);
    assert_eq!(
        conversation_department_context_signature(&conv, Some(&d)),
        "department_context=provider_meta|target=|current=d1|call_stack="
    );
}

#[test]
fn department_cache_key_has_every_part() {
    let st = state();
    let ds = vec![department("d1", 1)];
    let conv = conversation(Vec::new());
    let key = build_department_system_prompt_cache_key(
        Some(&st),
        &conv,
        &agent(),
        &ds,
        Some(&ds[0]),
        " zh-CN ",
    );
    assert_eq!(
        key,
        format!(
            "scope=/data/app|agent=agent-1|ui=zh-CN|departments={}|context=department_context=default|target=d1|call_stack=",
            departments_runtime_signature(&ds)
        )
    );
}

#[test]
fn shell_signature_with_and_without_state() {
    assert_eq!(conversation_shell_runtime_signature(None), "shell=no_state");
    let st = state();
    assert_eq!(conversation_shell_runtime_signature(Some(&st)), "shell=bash|path=/bin/bash");
}

#[test]
fn workspace_signature_lists_workspaces() {
    let conv = conversation(Vec::new());
    assert_eq!(
        conversation_workspace_runtime_signature(&conv),
        "conversation_id=conv-9|kind=chat|root=/work|workspaces=w1:/work:main:rw:Work:true"
    );
    let mut bare = conversation(Vec::new());
    bare.shell_workspace_path = None;
    bare.shell_workspaces = Vec::new();
    assert_eq!(
        conversation_workspace_runtime_signature(&bare),
        "conversation_id=conv-9|kind=chat|root=|workspaces="
    );
}

#[test]
fn environment_cache_key_has_every_part() {
    let conv = conversation(Vec::new());
    let key = build_conversation_environment_prompt_cache_key(
        None,
        &conv,
        "en",
        Some("  terminal info "),
        &strings(&[" r1 ", "", "r2"]),
        &strings(&["i1"]),
    );
    assert_eq!(
        key,
        "scope=<global>|ui=en|shell=no_state|conversation_id=conv-9|kind=chat|root=/work|workspaces=w1:/work:main:rw:Work:true|terminal=terminal info|runtime_extra=r1\n<runtime>\nr2|im_extra=i1|remote_contact=false"
    );
}

#[test]
fn system_prompt_cache_key_joins_blocks() {
    let key = build_system_prompt_cache_key(
        None,
        " chat ",
        &agent(),
        &strings(&[" one ", "  ", "two"]),
    );
    assert_eq!(key, "scope=<global>|mode=chat|agent=agent-1|ordered_blocks=one\n<block-sep>\ntwo");
}

#[test]
fn workspace_signature_ignores_surrounding_whitespace() {
    let plain = conversation(Vec::new());
    let mut padded = conversation(Vec::new());
    padded.id = "  conv-9\t".to_string();
    padded.conversation_kind = " chat ".to_string();
    padded.shell_workspace_path = Some("/work ".to_string());
    padded.shell_workspaces[0].id = " w1 ".to_string();
    padded.shell_workspaces[0].name = "Work  ".to_string();
    assert_eq!(
        conversation_workspace_runtime_signature(&padded),
        conversation_workspace_runtime_signature(&plain)
    );
    let mut none_root = conversation(Vec::new());
    none_root.shell_workspace_path = None;
    let mut blank_root = conversation(Vec::new());
    blank_root.shell_workspace_path = Some("   ".to_string());
    assert_eq!(
        conversation_workspace_runtime_signature(&none_root),
        conversation_workspace_runtime_signature(&blank_root)
    );
}
