use vstd::prelude::*;

use crate::prompt_types::{
    AgentProfile, AppState, Conversation, ConversationMessage, DepartmentConfig,
    DepartmentPermissionControl, ShellWorkspace, UserMessageMeta, strings_of_slice,
};
use crate::text::{
    bool_chars, bool_text, chars_eq, chars_of, chars_of_all, contains, decimal_i64, decimal_int,
    is_blank, join, join_chars, join_trimmed_nonblank, lemma_cancel_prefix, lemma_contains_in_middle,
    lemma_join_holds_parts, lemma_sort_lex_props, lex_sorted, push_chars, push_str, sort_lex, sort_lex_chars, string_of, texts, trim,
    trim_str, trimmed_nonblank, trimmed_nonblank_chars, views,
};

verus! {

// ---------------------------------------------------------------------------
// Specification: the texts that identify what a cached prompt part depends on
// ---------------------------------------------------------------------------

/// The trimmed text of an optional string (empty when absent).
pub open spec fn opt_trimmed(s: Option<&str>) -> Seq<char> {
    match s {
        Some(t) => trim(t@),
        None => Seq::empty(),
    }
}

/// The cache scope: the data directory of the application state, or `<global>`.
pub open spec fn scope_key(state: Option<&AppState>) -> Seq<char> {
    match state {
        Some(st) => st.data_path@,
        None => "<global>"@,
    }
}

/// The signature of a department's tool permissions.
pub open spec fn permission_signature(c: &DepartmentPermissionControl) -> Seq<char> {
    "enabled="@ + bool_text(c.enabled) + "|mode="@ + trim(c.mode@) + "|builtin="@ + join(
        trimmed_nonblank(texts(c.builtin_tool_names@)),
        ","@,
    ) + "|skill="@ + join(trimmed_nonblank(texts(c.skill_names@)), ","@) + "|mcp="@ + join(
        trimmed_nonblank(texts(c.mcp_tool_names@)),
        ","@,
    )
}

/// The signature of one department.
pub open spec fn department_signature(d: &DepartmentConfig) -> Seq<char> {
    trim(d.id@) + "|"@ + trim(d.updated_at@) + "|"@ + trim(d.name@) + "|"@ + trim(d.summary@)
        + "|"@ + trim(d.guide@) + "|"@ + join(trimmed_nonblank(texts(d.agent_ids@)), ","@) + "|"@
        + decimal_int(d.order_index as int) + "|"@ + permission_signature(&d.permission_control)
}

/// The signature of each department, in order.
pub open spec fn department_signatures(ds: Seq<DepartmentConfig>) -> Seq<Seq<char>> {
    ds.map_values(|d: DepartmentConfig| department_signature(&d))
}

/// The signature of a list of departments.
pub open spec fn departments_signature(ds: Seq<DepartmentConfig>) -> Seq<char> {
    join(department_signatures(ds), "||"@)
}

/// Whether a message takes the user's role in the prompt.
pub open spec fn is_user_message(m: ConversationMessage) -> bool {
    m.prompt_role matches Some(r) && r@ == "user"@
}

/// The latest message that takes the user's role, if any.
pub open spec fn latest_user_message(msgs: Seq<ConversationMessage>) -> Option<ConversationMessage>
    decreases msgs.len(),
{
    if msgs.len() == 0 {
        None
    } else if is_user_message(msgs.last()) {
        Some(msgs.last())
    } else {
        latest_user_message(msgs.drop_last())
    }
}

/// The provider metadata of the latest user message, if it has any.
pub open spec fn latest_user_meta(msgs: Seq<ConversationMessage>) -> Option<UserMessageMeta> {
    match latest_user_message(msgs) {
        Some(m) => m.provider_meta,
        None => None,
    }
}

/// The trimmed target department named in metadata (empty when absent).
pub open spec fn meta_target(meta: UserMessageMeta) -> Seq<char> {
    match meta.target_department_id {
        Some(t) => trim(t@),
        None => Seq::empty(),
    }
}

/// The department routing context of a conversation, for the department the agent is in.
pub open spec fn context_signature(
    conversation: &Conversation,
    current: Option<&DepartmentConfig>,
) -> Seq<char> {
    match current {
        None => "department_context=none"@,
        Some(d) => match latest_user_meta(conversation.messages@) {
            None => "department_context=default|target="@ + trim(d.id@) + "|call_stack="@,
            Some(meta) => "department_context=provider_meta|target="@ + meta_target(meta)
                + "|current="@ + trim(d.id@) + "|call_stack="@ + join(
                sort_lex(trimmed_nonblank(texts(meta.call_stack@))),
                ","@,
            ),
        },
    }
}

/// The key under which a department snapshot is cached.
pub open spec fn department_cache_key(
    state: Option<&AppState>,
    conversation: &Conversation,
    agent: &AgentProfile,
    departments: Seq<DepartmentConfig>,
    current: Option<&DepartmentConfig>,
    ui_language: Seq<char>,
) -> Seq<char> {
    "scope="@ + scope_key(state) + "|agent="@ + trim(agent.id@) + "|ui="@ + trim(ui_language)
        + "|departments="@ + departments_signature(departments) + "|context="@ + context_signature(
        conversation,
        current,
    )
}

/// The terminal shell the application state runs commands in.
pub open spec fn shell_signature(state: Option<&AppState>) -> Seq<char> {
    match state {
        None => "shell=no_state"@,
        Some(st) => "shell="@ + trim(st.terminal_shell_kind@) + "|path="@ + trim(
            st.terminal_shell_path@,
        ),
    }
}

/// The signature of one shell workspace.
pub open spec fn workspace_entry(w: ShellWorkspace) -> Seq<char> {
    trim(w.id@) + ":"@ + trim(w.path@) + ":"@ + trim(w.level@) + ":"@ + trim(w.access@) + ":"@
        + trim(w.name@) + ":"@ + bool_text(w.built_in)
}

/// The signatures of the workspaces, in order.
pub open spec fn workspace_entries(ws: Seq<ShellWorkspace>) -> Seq<Seq<char>> {
    ws.map_values(|w: ShellWorkspace| workspace_entry(w))
}

/// The trimmed workspace root of a conversation (empty when it has none).
pub open spec fn workspace_root(conversation: &Conversation) -> Seq<char> {
    match conversation.shell_workspace_path {
        Some(p) => trim(p@),
        None => Seq::empty(),
    }
}

/// The workspaces a conversation runs in.
pub open spec fn workspace_signature(conversation: &Conversation) -> Seq<char> {
    "conversation_id="@ + trim(conversation.id@) + "|kind="@ + trim(conversation.conversation_kind@)
        + "|root="@ + workspace_root(conversation) + "|workspaces="@ + join(
        workspace_entries(conversation.shell_workspaces@),
        "|"@,
    )
}

/// The key under which a conversation-environment snapshot is cached.
pub open spec fn environment_cache_key(
    state: Option<&AppState>,
    conversation: &Conversation,
    ui_language: Seq<char>,
    terminal_block: Option<&str>,
    runtime_extra_blocks: Seq<Seq<char>>,
    im_extra_blocks: Seq<Seq<char>>,
) -> Seq<char> {
    "scope="@ + scope_key(state) + "|ui="@ + trim(ui_language) + "|"@ + shell_signature(state)
        + "|"@ + workspace_signature(conversation) + "|terminal="@ + opt_trimmed(terminal_block)
        + "|runtime_extra="@ + join(trimmed_nonblank(runtime_extra_blocks), "\n<runtime>\n"@)
        + "|im_extra="@ + join(trimmed_nonblank(im_extra_blocks), "\n<im>\n"@)
        + "|remote_contact="@ + bool_text(conversation.remote_im_contact)
}

/// The key under which a finished system prompt is cached.
pub open spec fn system_prompt_cache_key(
    state: Option<&AppState>,
    mode_label: Seq<char>,
    agent: &AgentProfile,
    ordered_blocks: Seq<Seq<char>>,
) -> Seq<char> {
    "scope="@ + scope_key(state) + "|mode="@ + trim(mode_label) + "|agent="@ + trim(agent.id@)
        + "|ordered_blocks="@ + join(trimmed_nonblank(ordered_blocks), "\n<block-sep>\n"@)
}

/// The department cache key holds the runtime signature of every department of the list,
/// whichever department the agent is in, so that editing any of them changes the key.
pub proof fn lemma_department_key_holds_every_department(
    state: Option<&AppState>,
    conversation: &Conversation,
    agent: &AgentProfile,
    departments: Seq<DepartmentConfig>,
    current: Option<&DepartmentConfig>,
    ui_language: Seq<char>,
)
    ensures
        forall|i: int|
            0 <= i < departments.len() ==> contains(
                department_cache_key(state, conversation, agent, departments, current, ui_language),
                department_signature(&#[trigger] departments[i]),
            ),
{
    let sigs = department_signatures(departments);
    let j = join(sigs, "||"@);
    lemma_join_holds_parts(sigs, "||"@);
    let pre = "scope="@ + scope_key(state) + "|agent="@ + trim(agent.id@) + "|ui="@ + trim(
        ui_language,
    ) + "|departments="@;
    let post = "|context="@ + context_signature(conversation, current);
    assert(department_cache_key(state, conversation, agent, departments, current, ui_language)
        =~= pre + j + post);
    assert forall|i: int| 0 <= i < departments.len() implies contains(
        department_cache_key(state, conversation, agent, departments, current, ui_language),
        department_signature(&#[trigger] departments[i]),
    ) by {
        assert(sigs[i] == department_signature(&departments[i]));
        lemma_contains_in_middle(pre, j, post, sigs[i]);
    }
}

/// Requests that differ only in their department lists get the same department cache key only
/// when the lists' signatures, joined with `||`, are the same: a list whose departments sign
/// differently gets another key, whichever department the agent is in.
pub proof fn lemma_department_key_separates_department_lists(
    state: Option<&AppState>,
    conversation: &Conversation,
    agent: &AgentProfile,
    departments: Seq<DepartmentConfig>,
    other_departments: Seq<DepartmentConfig>,
    current: Option<&DepartmentConfig>,
    ui_language: Seq<char>,
)
    requires
        department_cache_key(state, conversation, agent, departments, current, ui_language)
            == department_cache_key(state, conversation, agent, other_departments, current, ui_language),
    ensures
        join(department_signatures(departments), "||"@) == join(
            department_signatures(other_departments),
            "||"@,
        ),
{
    let j1 = join(department_signatures(departments), "||"@);
    let j2 = join(department_signatures(other_departments), "||"@);
    let pre = "scope="@ + scope_key(state) + "|agent="@ + trim(agent.id@) + "|ui="@ + trim(
        ui_language,
    ) + "|departments="@;
    let post = "|context="@ + context_signature(conversation, current);
    assert(department_cache_key(state, conversation, agent, departments, current, ui_language)
        =~= pre + (j1 + post));
    assert(department_cache_key(state, conversation, agent, other_departments, current, ui_language)
        =~= pre + (j2 + post));
    lemma_cancel_prefix(pre, j1 + post, j2 + post);
    assert(j1 =~= (j1 + post).take(j1.len() as int));
    assert(j2 =~= (j2 + post).take(j2.len() as int));
}

/// The routing context of a conversation with routing metadata lists the call stack sorted:
/// its entries, trimmed and without blank ones, in lexicographic order, joined with `,`.
pub proof fn lemma_context_call_stack_sorted(conversation: &Conversation, current: &DepartmentConfig)
    requires
        latest_user_meta(conversation.messages@) is Some,
    ensures
        ({
            let meta = latest_user_meta(conversation.messages@)->0;
            exists|sorted: Seq<Seq<char>>|
                #![trigger join(sorted, ","@)]
                lex_sorted(sorted) && sorted.to_multiset() == trimmed_nonblank(
                    texts(meta.call_stack@),
                ).to_multiset() && context_signature(conversation, Some(current))
                    == "department_context=provider_meta|target="@ + meta_target(meta)
                    + "|current="@ + trim(current.id@) + "|call_stack="@ + join(sorted, ","@)
        }),
{
    let meta = latest_user_meta(conversation.messages@)->0;
    lemma_sort_lex_props(trimmed_nonblank(texts(meta.call_stack@)));
    let sorted = sort_lex(trimmed_nonblank(texts(meta.call_stack@)));
    assert(context_signature(conversation, Some(current))
        == "department_context=provider_meta|target="@ + meta_target(meta) + "|current="@ + trim(
        current.id@,
    ) + "|call_stack="@ + join(sorted, ","@));
}

/// Only the latest message in the user's role routes: two conversations whose messages end
/// with the same user message followed by messages in other roles have the same routing
/// context.
pub proof fn lemma_context_follows_latest_user_message(
    a: &Conversation,
    b: &Conversation,
    current: Option<&DepartmentConfig>,
    before_a: Seq<ConversationMessage>,
    before_b: Seq<ConversationMessage>,
    user: ConversationMessage,
    after: Seq<ConversationMessage>,
)
    requires
        user.prompt_role matches Some(r) && r@ == "user"@,
        forall|i: int|
            0 <= i < after.len() ==> !((#[trigger] after[i]).prompt_role matches Some(r) && r@
                == "user"@),
        a.messages@ == before_a.push(user) + after,
        b.messages@ == before_b.push(user) + after,
    ensures
        context_signature(a, current) == context_signature(b, current),
{
    lemma_latest_user_after(before_a, user, after);
    lemma_latest_user_after(before_b, user, after);
}

proof fn lemma_latest_user_after(
    before: Seq<ConversationMessage>,
    user: ConversationMessage,
    after: Seq<ConversationMessage>,
)
    requires
        is_user_message(user),
        forall|i: int| 0 <= i < after.len() ==> !is_user_message(#[trigger] after[i]),
    ensures
        latest_user_message(before.push(user) + after) == Some(user),
    decreases after.len(),
{
    if after.len() == 0 {
        assert(before.push(user) + after =~= before.push(user));
    } else {
        let init = after.drop_last();
        assert(forall|i: int| 0 <= i < init.len() ==> init[i] == after[i]);
        lemma_latest_user_after(before, user, init);
        assert((before.push(user) + after).drop_last() =~= before.push(user) + init);
        assert((before.push(user) + after).last() == after[after.len() - 1]);
    }
}

/// The signature of a department's tool permissions ignores whitespace around the mode and
/// the tool names, and blank tool names.
pub proof fn lemma_permission_signature_ignores_whitespace(
    a: &DepartmentPermissionControl,
    b: &DepartmentPermissionControl,
)
    requires
        a.enabled == b.enabled,
        trim(a.mode@) == trim(b.mode@),
        trimmed_nonblank(texts(a.builtin_tool_names@)) == trimmed_nonblank(
            texts(b.builtin_tool_names@),
        ),
        trimmed_nonblank(texts(a.skill_names@)) == trimmed_nonblank(texts(b.skill_names@)),
        trimmed_nonblank(texts(a.mcp_tool_names@)) == trimmed_nonblank(texts(b.mcp_tool_names@)),
    ensures
        permission_signature(a) == permission_signature(b),
{
}

/// The signature of a department ignores whitespace around its text fields and its agent
/// ids, and blank agent ids.
pub proof fn lemma_department_signature_ignores_whitespace(a: &DepartmentConfig, b: &DepartmentConfig)
    requires
        trim(a.id@) == trim(b.id@),
        trim(a.updated_at@) == trim(b.updated_at@),
        trim(a.name@) == trim(b.name@),
        trim(a.summary@) == trim(b.summary@),
        trim(a.guide@) == trim(b.guide@),
        trimmed_nonblank(texts(a.agent_ids@)) == trimmed_nonblank(texts(b.agent_ids@)),
        a.order_index == b.order_index,
        permission_signature(&a.permission_control) == permission_signature(&b.permission_control),
    ensures
        department_signature(a) == department_signature(b),
{
}

/// The environment cache key holds the trimmed terminal block and every kept runtime and IM
/// extra block, so that changing any of them changes the key.
pub proof fn lemma_environment_key_holds_its_blocks(
    state: Option<&AppState>,
    conversation: &Conversation,
    ui_language: Seq<char>,
    terminal_block: Option<&str>,
    runtime_extra_blocks: Seq<Seq<char>>,
    im_extra_blocks: Seq<Seq<char>>,
)
    ensures
        ({
            let key = environment_cache_key(
                state,
                conversation,
                ui_language,
                terminal_block,
                runtime_extra_blocks,
                im_extra_blocks,
            );
            &&& contains(key, opt_trimmed(terminal_block))
            &&& forall|i: int|
                0 <= i < trimmed_nonblank(runtime_extra_blocks).len() ==> contains(
                    key,
                    #[trigger] trimmed_nonblank(runtime_extra_blocks)[i],
                )
            &&& forall|i: int|
                0 <= i < trimmed_nonblank(im_extra_blocks).len() ==> contains(
                    key,
                    #[trigger] trimmed_nonblank(im_extra_blocks)[i],
                )
        }),
{
    let key = environment_cache_key(
        state,
        conversation,
        ui_language,
        terminal_block,
        runtime_extra_blocks,
        im_extra_blocks,
    );
    let rt = trimmed_nonblank(runtime_extra_blocks);
    let im = trimmed_nonblank(im_extra_blocks);
    let jr = join(rt, "\n<runtime>\n"@);
    let ji = join(im, "\n<im>\n"@);
    let p1 = "scope="@ + scope_key(state) + "|ui="@ + trim(ui_language) + "|"@ + shell_signature(
        state,
    ) + "|"@ + workspace_signature(conversation) + "|terminal="@;
    let term = opt_trimmed(terminal_block);
    let p2 = p1 + term + "|runtime_extra="@;
    let p3 = p2 + jr + "|im_extra="@;
    let tail = "|remote_contact="@ + bool_text(conversation.remote_im_contact);
    assert(key =~= p1 + term + (("|runtime_extra="@ + jr + "|im_extra="@ + ji) + tail));
    assert(key =~= p2 + jr + ("|im_extra="@ + ji + tail));
    assert(key =~= p3 + ji + tail);
    assert(contains(term, term)) by {
        assert(term.subrange(0, term.len() as int) =~= term);
        assert(crate::text::occurs_at(term, term, 0));
    }
    lemma_contains_in_middle(p1, term, ("|runtime_extra="@ + jr + "|im_extra="@ + ji) + tail, term);
    lemma_join_holds_parts(rt, "\n<runtime>\n"@);
    lemma_join_holds_parts(im, "\n<im>\n"@);
    assert forall|i: int| 0 <= i < rt.len() implies contains(key, #[trigger] rt[i]) by {
        lemma_contains_in_middle(p2, jr, "|im_extra="@ + ji + tail, rt[i]);
    }
    assert forall|i: int| 0 <= i < im.len() implies contains(key, #[trigger] im[i]) by {
        lemma_contains_in_middle(p3, ji, tail, im[i]);
    }
}

/// The system prompt cache key holds every kept ordered block, so that changing any block
/// changes the key.
pub proof fn lemma_system_key_holds_every_block(
    state: Option<&AppState>,
    mode_label: Seq<char>,
    agent: &AgentProfile,
    ordered_blocks: Seq<Seq<char>>,
)
    ensures
        forall|i: int|
            0 <= i < trimmed_nonblank(ordered_blocks).len() ==> contains(
                system_prompt_cache_key(state, mode_label, agent, ordered_blocks),
                #[trigger] trimmed_nonblank(ordered_blocks)[i],
            ),
{
    let kept = trimmed_nonblank(ordered_blocks);
    let j = join(kept, "\n<block-sep>\n"@);
    let pre = "scope="@ + scope_key(state) + "|mode="@ + trim(mode_label) + "|agent="@ + trim(
        agent.id@,
    ) + "|ordered_blocks="@;
    assert(system_prompt_cache_key(state, mode_label, agent, ordered_blocks) =~= pre + j
        + Seq::<char>::empty());
    lemma_join_holds_parts(kept, "\n<block-sep>\n"@);
    assert forall|i: int| 0 <= i < kept.len() implies contains(
        system_prompt_cache_key(state, mode_label, agent, ordered_blocks),
        #[trigger] kept[i],
    ) by {
        lemma_contains_in_middle(pre, j, Seq::<char>::empty(), kept[i]);
    }
}

/// Two lists of shell workspaces that differ at most in whitespace around their text fields.
pub open spec fn workspaces_match_trimmed(a: Seq<ShellWorkspace>, b: Seq<ShellWorkspace>) -> bool {
    &&& a.len() == b.len()
    &&& forall|i: int|
        0 <= i < a.len() ==> {
            &&& trim((#[trigger] a[i]).id@) == trim(b[i].id@)
            &&& trim(a[i].path@) == trim(b[i].path@)
            &&& trim(a[i].level@) == trim(b[i].level@)
            &&& trim(a[i].access@) == trim(b[i].access@)
            &&& trim(a[i].name@) == trim(b[i].name@)
            &&& a[i].built_in == b[i].built_in
        }
}

/// The workspace signature of a conversation ignores whitespace around its id, its kind, its
/// workspace root and the text fields of its workspaces, and does not tell a missing root
/// from a blank one.
pub proof fn lemma_workspace_signature_ignores_whitespace(a: &Conversation, b: &Conversation)
    requires
        trim(a.id@) == trim(b.id@),
        trim(a.conversation_kind@) == trim(b.conversation_kind@),
        workspace_root(a) == workspace_root(b),
        workspaces_match_trimmed(a.shell_workspaces@, b.shell_workspaces@),
    ensures
        workspace_signature(a) == workspace_signature(b),
{
    let ea = workspace_entries(a.shell_workspaces@);
    let eb = workspace_entries(b.shell_workspaces@);
    assert(ea =~= eb) by {
        assert forall|i: int| 0 <= i < ea.len() implies ea[i] == eb[i] by {
            assert(ea[i] == workspace_entry(a.shell_workspaces@[i]));
            assert(eb[i] == workspace_entry(b.shell_workspaces@[i]));
        }
    }
}

/// A missing workspace root and a blank one give the same signature part.
pub proof fn lemma_workspace_root_blank(a: &Conversation)
    ensures
        (a.shell_workspace_path matches Some(p) && is_blank(p@)) ==> workspace_root(a) == Seq::<
            char,
        >::empty(),
{
}

// ---------------------------------------------------------------------------
// Executable signatures
// ---------------------------------------------------------------------------

/// Appends the trimmed text of `s`.
fn push_trimmed(out: &mut Vec<char>, s: &str)
    ensures
        final(out)@ == old(out)@ + trim(s@),
{
    let t = trim_str(s);
    push_chars(out, t.as_slice());
}

/// Appends the trimmed non-blank entries of `list`, joined with `sep`.
fn push_joined(out: &mut Vec<char>, list: &Vec<String>, sep: &str)
    ensures
        final(out)@ == old(out)@ + join(trimmed_nonblank(texts(list@)), sep@),
{
    let j = join_trimmed_nonblank(list, sep);
    push_chars(out, j.as_slice());
}

/// The cache scope of an application state: its data directory, or `<global>` without one.
pub fn prompt_cache_scope_key(state: Option<&AppState>) -> (out: String)
    ensures
        out@ == scope_key(state),
{
    match state {
        Some(st) => st.data_path.clone(),
        None => String::from_str("<global>"),
    }
}

fn permission_signature_chars(control: &DepartmentPermissionControl) -> (out: Vec<char>)
    ensures
        out@ == permission_signature(control),
{
    let mut out: Vec<char> = Vec::new();
    push_str(&mut out, "enabled=");
    let b = bool_chars(control.enabled);
    push_chars(&mut out, b.as_slice());
    push_str(&mut out, "|mode=");
    push_trimmed(&mut out, control.mode.as_str());
    push_str(&mut out, "|builtin=");
    push_joined(&mut out, &control.builtin_tool_names, ",");
    push_str(&mut out, "|skill=");
    push_joined(&mut out, &control.skill_names, ",");
    push_str(&mut out, "|mcp=");
    push_joined(&mut out, &control.mcp_tool_names, ",");
    out
}

/// The signature of a department's tool permissions: whether they are on, the mode, and
/// the trimmed non-blank builtin tool, skill and MCP tool names.
pub fn department_permission_control_signature(control: &DepartmentPermissionControl) -> (out:
    String)
    ensures
        out@ == permission_signature(control),
{
    let cs = permission_signature_chars(control);
    string_of(cs.as_slice())
}

fn department_signature_chars(department: &DepartmentConfig) -> (out: Vec<char>)
    ensures
        out@ == department_signature(department),
{
    let mut out: Vec<char> = Vec::new();
    push_trimmed(&mut out, department.id.as_str());
    push_str(&mut out, "|");
    push_trimmed(&mut out, department.updated_at.as_str());
    push_str(&mut out, "|");
    push_trimmed(&mut out, department.name.as_str());
    push_str(&mut out, "|");
    push_trimmed(&mut out, department.summary.as_str());
    push_str(&mut out, "|");
    push_trimmed(&mut out, department.guide.as_str());
    push_str(&mut out, "|");
    push_joined(&mut out, &department.agent_ids, ",");
    push_str(&mut out, "|");
    let n = decimal_i64(department.order_index);
    push_chars(&mut out, n.as_slice());
    push_str(&mut out, "|");
    let p = permission_signature_chars(&department.permission_control);
    push_chars(&mut out, p.as_slice());
    out
}

/// The signature of one department: its trimmed identity, texts and agents, its order
/// and its permissions, separated by `|`.
pub fn department_runtime_signature(department: &DepartmentConfig) -> (out: String)
    ensures
        out@ == department_signature(department),
{
    let cs = department_signature_chars(department);
    string_of(cs.as_slice())
}

fn departments_signature_chars(departments: &[DepartmentConfig]) -> (out: Vec<char>)
    ensures
        out@ == departments_signature(departments@),
{
    let ghost all = department_signatures(departments@);
    let mut sigs: Vec<Vec<char>> = Vec::new();
    let mut i: usize = 0;
    while i < departments.len()
        invariant
            i <= departments@.len(),
            all == department_signatures(departments@),
            sigs@.len() == i,
            views(sigs@) == all.take(i as int),
        decreases departments@.len() - i,
    {
        let s = department_signature_chars(&departments[i]);
        let ghost prev = sigs@;
        sigs.push(s);
        proof {
            assert forall|k: int| 0 <= k < i + 1 implies views(sigs@)[k] == all.take(i + 1)[k] by {
                if k < i {
                    assert(sigs@[k] == prev[k]);
                    assert(views(prev)[k] == all.take(i as int)[k]);
                }
            }
        }
        i = i + 1;
        assert(views(sigs@) =~= all.take(i as int));
    }
    assert(all.take(departments@.len() as int) =~= all);
    let sep = chars_of("||");
    join_chars(&sigs, sep.as_slice())
}

/// The signatures of all departments, in order, joined with `||`.
pub fn departments_runtime_signature(departments: &[DepartmentConfig]) -> (out: String)
    ensures
        out@ == departments_signature(departments@),
{
    let cs = departments_signature_chars(departments);
    string_of(cs.as_slice())
}

/// The index of the latest user message, if any.
fn latest_user_index(messages: &Vec<ConversationMessage>) -> (r: Option<usize>)
    ensures
        match r {
            Some(i) => i < messages@.len() && latest_user_message(messages@) == Some(
                messages@[i as int],
            ),
            None => latest_user_message(messages@) is None,
        },
{
    let user = chars_of("user");
    let mut i: usize = messages.len();
    assert(messages@.take(i as int) =~= messages@);
    while i > 0
        invariant
            i <= messages@.len(),
            user@ == "user"@,
            latest_user_message(messages@) == latest_user_message(messages@.take(i as int)),
        decreases i,
    {
        let is_user = match &messages[i - 1].prompt_role {
            Some(role) => {
                let rc = chars_of(role.as_str());
                chars_eq(rc.as_slice(), user.as_slice())
            },
            None => false,
        };
        assert(messages@.take(i as int).last() == messages@[i - 1]);
        assert(messages@.take(i as int).drop_last() =~= messages@.take(i - 1));
        if is_user {
            return Some(i - 1);
        }
        i = i - 1;
    }
    None
}

fn context_signature_chars(
    conversation: &Conversation,
    current_department: Option<&DepartmentConfig>,
) -> (out: Vec<char>)
    ensures
        out@ == context_signature(conversation, current_department),
{
    let mut out: Vec<char> = Vec::new();
    match current_department {
        None => {
            push_str(&mut out, "department_context=none");
            out
        },
        Some(d) => {
            let meta = match latest_user_index(&conversation.messages) {
                Some(i) => match &conversation.messages[i].provider_meta {
                    Some(m) => Some(m),
                    None => None,
                },
                None => None,
            };
            match meta {
                None => {
                    push_str(&mut out, "department_context=default|target=");
                    push_trimmed(&mut out, d.id.as_str());
                    push_str(&mut out, "|call_stack=");
                    out
                },
                Some(m) => {
                    push_str(&mut out, "department_context=provider_meta|target=");
                    match &m.target_department_id {
                        Some(t) => push_trimmed(&mut out, t.as_str()),
                        None => {},
                    }
                    push_str(&mut out, "|current=");
                    push_trimmed(&mut out, d.id.as_str());
                    push_str(&mut out, "|call_stack=");
                    let all = chars_of_all(&m.call_stack);
                    let kept = trimmed_nonblank_chars(&all);
                    let sorted = sort_lex_chars(kept);
                    let sep = chars_of(",");
                    let joined = join_chars(&sorted, sep.as_slice());
                    push_chars(&mut out, joined.as_slice());
                    out
                },
            }
        },
    }
}

/// The department routing context: `none` without a current department; otherwise the
/// target and (sorted) call stack that the latest user message's metadata names, or the
/// default context when that message carries none.
pub fn conversation_department_context_signature(
    conversation: &Conversation,
    current_department: Option<&DepartmentConfig>,
) -> (out: String)
    ensures
        out@ == context_signature(conversation, current_department),
{
    let cs = context_signature_chars(conversation, current_department);
    string_of(cs.as_slice())
}

/// The key under which the department snapshot for an agent is cached. `current_department`
/// is the department the agent belongs to.
pub fn build_department_system_prompt_cache_key(
    state: Option<&AppState>,
    conversation: &Conversation,
    agent: &AgentProfile,
    departments: &[DepartmentConfig],
    current_department: Option<&DepartmentConfig>,
    ui_language: &str,
) -> (out: String)
    ensures
        out@ == department_cache_key(
            state,
            conversation,
            agent,
            departments@,
            current_department,
            ui_language@,
        ),
{
    let mut out: Vec<char> = Vec::new();
    push_str(&mut out, "scope=");
    let scope = prompt_cache_scope_key(state);
    push_str(&mut out, scope.as_str());
    push_str(&mut out, "|agent=");
    push_trimmed(&mut out, agent.id.as_str());
    push_str(&mut out, "|ui=");
    push_trimmed(&mut out, ui_language);
    push_str(&mut out, "|departments=");
    let ds = departments_signature_chars(departments);
    push_chars(&mut out, ds.as_slice());
    push_str(&mut out, "|context=");
    let cx = context_signature_chars(conversation, current_department);
    push_chars(&mut out, cx.as_slice());
    string_of(out.as_slice())
}

/// The terminal shell of the application state (`shell=no_state` without one).
pub fn conversation_shell_runtime_signature(state: Option<&AppState>) -> (out: String)
    ensures
        out@ == shell_signature(state),
{
    let mut out: Vec<char> = Vec::new();
    match state {
        None => {
            push_str(&mut out, "shell=no_state");
        },
        Some(st) => {
            push_str(&mut out, "shell=");
            push_trimmed(&mut out, st.terminal_shell_kind.as_str());
            push_str(&mut out, "|path=");
            push_trimmed(&mut out, st.terminal_shell_path.as_str());
        },
    }
    string_of(out.as_slice())
}

fn workspace_entry_chars(w: &ShellWorkspace) -> (out: Vec<char>)
    ensures
        out@ == workspace_entry(*w),
{
    let mut out: Vec<char> = Vec::new();
    push_trimmed(&mut out, w.id.as_str());
    push_str(&mut out, ":");
    push_trimmed(&mut out, w.path.as_str());
    push_str(&mut out, ":");
    push_trimmed(&mut out, w.level.as_str());
    push_str(&mut out, ":");
    push_trimmed(&mut out, w.access.as_str());
    push_str(&mut out, ":");
    push_trimmed(&mut out, w.name.as_str());
    push_str(&mut out, ":");
    let b = bool_chars(w.built_in);
    push_chars(&mut out, b.as_slice());
    out
}

/// The workspaces a conversation runs in: its id and kind, its trimmed root, and each
/// workspace's trimmed fields.
pub fn conversation_workspace_runtime_signature(conversation: &Conversation) -> (out: String)
    ensures
        out@ == workspace_signature(conversation),
{
    let ws = &conversation.shell_workspaces;
    let ghost all = workspace_entries(ws@);
    let mut entries: Vec<Vec<char>> = Vec::new();
    let mut i: usize = 0;
    while i < ws.len()
        invariant
            i <= ws@.len(),
            all == workspace_entries(ws@),
            entries@.len() == i,
            views(entries@) == all.take(i as int),
        decreases ws@.len() - i,
    {
        let e = workspace_entry_chars(&ws[i]);
        let ghost prev = entries@;
        entries.push(e);
        proof {
            assert forall|k: int| 0 <= k < i + 1 implies views(entries@)[k] == all.take(
                i + 1,
            )[k] by {
                if k < i {
                    assert(entries@[k] == prev[k]);
                    assert(views(prev)[k] == all.take(i as int)[k]);
                }
            }
        }
        i = i + 1;
        assert(views(entries@) =~= all.take(i as int));
    }
    assert(all.take(ws@.len() as int) =~= all);
    let mut out: Vec<char> = Vec::new();
    push_str(&mut out, "conversation_id=");
    push_trimmed(&mut out, conversation.id.as_str());
    push_str(&mut out, "|kind=");
    push_trimmed(&mut out, conversation.conversation_kind.as_str());
    push_str(&mut out, "|root=");
    match &conversation.shell_workspace_path {
        Some(p) => push_trimmed(&mut out, p.as_str()),
        None => {},
    }
    push_str(&mut out, "|workspaces=");
    let sep = chars_of("|");
    let joined = join_chars(&entries, sep.as_slice());
    push_chars(&mut out, joined.as_slice());
    string_of(out.as_slice())
}

/// The key under which the environment snapshot of a conversation is cached.
pub fn build_conversation_environment_prompt_cache_key(
    state: Option<&AppState>,
    conversation: &Conversation,
    ui_language: &str,
    terminal_block: Option<&str>,
    runtime_extra_blocks: &[String],
    im_extra_blocks: &[String],
) -> (out: String)
    ensures
        out@ == environment_cache_key(
            state,
            conversation,
            ui_language@,
            terminal_block,
            texts(runtime_extra_blocks@),
            texts(im_extra_blocks@),
        ),
{
    let mut out: Vec<char> = Vec::new();
    push_str(&mut out, "scope=");
    let scope = prompt_cache_scope_key(state);
    push_str(&mut out, scope.as_str());
    push_str(&mut out, "|ui=");
    push_trimmed(&mut out, ui_language);
    push_str(&mut out, "|");
    let shell = conversation_shell_runtime_signature(state);
    push_str(&mut out, shell.as_str());
    push_str(&mut out, "|");
    let ws = conversation_workspace_runtime_signature(conversation);
    push_str(&mut out, ws.as_str());
    push_str(&mut out, "|terminal=");
    match terminal_block {
        Some(t) => push_trimmed(&mut out, t),
        None => {},
    }
    push_str(&mut out, "|runtime_extra=");
    let runtime = strings_of_slice(runtime_extra_blocks);
    push_joined(&mut out, &runtime, "\n<runtime>\n");
    push_str(&mut out, "|im_extra=");
    let im = strings_of_slice(im_extra_blocks);
    push_joined(&mut out, &im, "\n<im>\n");
    push_str(&mut out, "|remote_contact=");
    let b = bool_chars(conversation.remote_im_contact);
    push_chars(&mut out, b.as_slice());
    string_of(out.as_slice())
}

/// The key under which a finished system prompt is cached: the scope, the mode, the
/// agent and the trimmed non-blank ordered blocks.
pub fn build_system_prompt_cache_key(
    state: Option<&AppState>,
    mode_label: &str,
    agent: &AgentProfile,
    ordered_blocks: &[String],
) -> (out: String)
    ensures
        out@ == system_prompt_cache_key(state, mode_label@, agent, texts(ordered_blocks@)),
{
    let mut out: Vec<char> = Vec::new();
    push_str(&mut out, "scope=");
    let scope = prompt_cache_scope_key(state);
    push_str(&mut out, scope.as_str());
    push_str(&mut out, "|mode=");
    push_trimmed(&mut out, mode_label);
    push_str(&mut out, "|agent=");
    push_trimmed(&mut out, agent.id.as_str());
    push_str(&mut out, "|ordered_blocks=");
    let blocks = strings_of_slice(ordered_blocks);
    push_joined(&mut out, &blocks, "\n<block-sep>\n");
    string_of(out.as_slice())
}

} // verus!
