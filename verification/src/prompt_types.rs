use vstd::prelude::*;

use crate::text::texts;

verus! {

/// The tool permissions configured for a department.
pub struct DepartmentPermissionControl {
    pub enabled: bool,
    pub mode: String,
    pub builtin_tool_names: Vec<String>,
    pub skill_names: Vec<String>,
    pub mcp_tool_names: Vec<String>,
}

/// A department: a group of agents with a shared guide and tool permissions.
pub struct DepartmentConfig {
    pub id: String,
    pub updated_at: String,
    pub name: String,
    pub summary: String,
    pub guide: String,
    pub agent_ids: Vec<String>,
    pub order_index: i64,
    pub permission_control: DepartmentPermissionControl,
}

/// A shell workspace attached to a conversation.
pub struct ShellWorkspace {
    pub id: String,
    pub path: String,
    pub level: String,
    pub access: String,
    pub name: String,
    pub built_in: bool,
}

/// The routing fields that a user message's provider metadata object carries.
///
/// `target_department_id` is the `targetDepartmentId` entry when it is a string;
/// `call_stack` holds the string entries of the `callStack` array, in order
/// (empty when the array is absent).
pub struct UserMessageMeta {
    pub target_department_id: Option<String>,
    pub call_stack: Vec<String>,
}

/// A message of a conversation, as the prompt builder sees it.
///
/// `prompt_role` is the role the message takes in the prompt (`"user"`, `"assistant"`, ...);
/// `provider_meta` is present when the message carries a provider metadata object.
pub struct ConversationMessage {
    pub prompt_role: Option<String>,
    pub provider_meta: Option<UserMessageMeta>,
}

/// The parts of a conversation that the system prompt depends on.
pub struct Conversation {
    pub id: String,
    pub conversation_kind: String,
    pub shell_workspace_path: Option<String>,
    pub shell_workspaces: Vec<ShellWorkspace>,
    pub messages: Vec<ConversationMessage>,
    pub remote_im_contact: bool,
}

/// An agent's identity and persona prompt.
pub struct AgentProfile {
    pub id: String,
    pub name: String,
    pub system_prompt: String,
}

/// The parts of the application state that the prompt caches depend on: where the
/// data lives (which scopes the caches) and the terminal shell in use.
pub struct AppState {
    pub data_path: String,
    pub terminal_shell_kind: String,
    pub terminal_shell_path: String,
}

/// A response style preset.
pub struct ResponseStyle {
    pub name: String,
    pub prompt: String,
}

/// The department part of a system prompt, as last built.
pub struct DepartmentSystemPromptSnapshot {
    pub department_prompt_block: String,
    pub department_tool_rule_blocks: Vec<String>,
    pub system_prompt_text: String,
    pub rebuilt_at: String,
}

/// The conversation-environment part of a system prompt, as last built.
pub struct ConversationEnvironmentPromptSnapshot {
    pub runtime_blocks: Vec<String>,
    pub im_rule_blocks: Vec<String>,
    pub system_prompt_text: String,
    pub rebuilt_at: String,
}

/// A finished system prompt, as last built.
pub struct SystemPromptCacheEntry {
    pub prompt_text: String,
    pub rebuilt_at: String,
}

/// The contents of a [`DepartmentSystemPromptSnapshot`].
pub struct DepartmentSnapshotView {
    pub department_prompt_block: Seq<char>,
    pub department_tool_rule_blocks: Seq<Seq<char>>,
    pub system_prompt_text: Seq<char>,
    pub rebuilt_at: Seq<char>,
}

/// The contents of a [`ConversationEnvironmentPromptSnapshot`].
pub struct EnvironmentSnapshotView {
    pub runtime_blocks: Seq<Seq<char>>,
    pub im_rule_blocks: Seq<Seq<char>>,
    pub system_prompt_text: Seq<char>,
    pub rebuilt_at: Seq<char>,
}

/// The contents of a [`SystemPromptCacheEntry`].
pub struct SystemPromptEntryView {
    pub prompt_text: Seq<char>,
    pub rebuilt_at: Seq<char>,
}

impl View for DepartmentSystemPromptSnapshot {
    type V = DepartmentSnapshotView;

    open spec fn view(&self) -> DepartmentSnapshotView {
        DepartmentSnapshotView {
            department_prompt_block: self.department_prompt_block@,
            department_tool_rule_blocks: texts(self.department_tool_rule_blocks@),
            system_prompt_text: self.system_prompt_text@,
            rebuilt_at: self.rebuilt_at@,
        }
    }
}

impl View for ConversationEnvironmentPromptSnapshot {
    type V = EnvironmentSnapshotView;

    open spec fn view(&self) -> EnvironmentSnapshotView {
        EnvironmentSnapshotView {
            runtime_blocks: texts(self.runtime_blocks@),
            im_rule_blocks: texts(self.im_rule_blocks@),
            system_prompt_text: self.system_prompt_text@,
            rebuilt_at: self.rebuilt_at@,
        }
    }
}

impl View for SystemPromptCacheEntry {
    type V = SystemPromptEntryView;

    open spec fn view(&self) -> SystemPromptEntryView {
        SystemPromptEntryView { prompt_text: self.prompt_text@, rebuilt_at: self.rebuilt_at@ }
    }
}

/// Which group an extra system-prompt block belongs to.
#[derive(PartialEq, Eq, Structural, Clone, Copy, Debug)]
pub enum SystemPromptExtraBlockGroup {
    ToolRules,
    Runtime,
    ImRules,
}

/// A copy of a list of strings given as a slice.
pub fn strings_of_slice(v: &[String]) -> (out: Vec<String>)
    ensures
        out@ == v@,
{
    let mut out: Vec<String> = Vec::new();
    let mut i: usize = 0;
    while i < v.len()
        invariant
            i <= v@.len(),
            out@ == v@.take(i as int),
        decreases v@.len() - i,
    {
        out.push(v[i].clone());
        i = i + 1;
        assert(out@ =~= v@.take(i as int));
    }
    assert(v@.take(v@.len() as int) =~= v@);
    out
}

impl DepartmentSystemPromptSnapshot {
    /// A copy of this snapshot.
    pub fn duplicate(&self) -> (out: Self)
        ensures
            out@ == self@,
    {
        DepartmentSystemPromptSnapshot {
            department_prompt_block: self.department_prompt_block.clone(),
            department_tool_rule_blocks: strings_of_slice(self.department_tool_rule_blocks.as_slice()),
            system_prompt_text: self.system_prompt_text.clone(),
            rebuilt_at: self.rebuilt_at.clone(),
        }
    }
}

impl ConversationEnvironmentPromptSnapshot {
    /// A copy of this snapshot.
    pub fn duplicate(&self) -> (out: Self)
        ensures
            out@ == self@,
    {
        ConversationEnvironmentPromptSnapshot {
            runtime_blocks: strings_of_slice(self.runtime_blocks.as_slice()),
            im_rule_blocks: strings_of_slice(self.im_rule_blocks.as_slice()),
            system_prompt_text: self.system_prompt_text.clone(),
            rebuilt_at: self.rebuilt_at.clone(),
        }
    }
}

impl SystemPromptCacheEntry {
    /// A copy of this entry.
    pub fn duplicate(&self) -> (out: Self)
        ensures
            out@ == self@,
    {
        SystemPromptCacheEntry {
            prompt_text: self.prompt_text.clone(),
            rebuilt_at: self.rebuilt_at.clone(),
        }
    }
}

} // verus!
