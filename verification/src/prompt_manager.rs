use vstd::prelude::*;

use crate::prompt_blocks::{
    build_conversation_environment_prompt_snapshot_uncached,
    build_department_system_prompt_snapshot_uncached, build_system_prompt_text_uncached,
    department_snapshot, environment_snapshot, preamble_group, prompt_text,
    split_system_preamble_blocks,
};
use crate::prompt_cache::PromptCache;
use crate::prompt_keys::{
    build_conversation_environment_prompt_cache_key, build_department_system_prompt_cache_key,
    build_system_prompt_cache_key, department_cache_key, environment_cache_key,
    system_prompt_cache_key,
};
use crate::prompt_types::{
    AgentProfile, AppState, Conversation, ConversationEnvironmentPromptSnapshot, DepartmentConfig,
    DepartmentSnapshotView, DepartmentSystemPromptSnapshot, EnvironmentSnapshotView,
    SystemPromptCacheEntry, SystemPromptEntryView, SystemPromptExtraBlockGroup, strings_of_slice,
};
use crate::prompt_blocks::lemma_prompt_text_is_lines;
use crate::prompt_keys::scope_key;
use crate::text::{
    chars_of_all, contains, has_char, is_blank, join, lemma_cancel_prefix,
    lemma_join_marked_injective, lemma_split_before_char, lemma_trim_ends,
    lemma_trimmed_nonblank_concat, lemma_trimmed_nonblank_nonempty, lemma_trimmed_nonblank_single,
    string_of, texts, trim, trim_str, trimmed_nonblank, trimmed_nonblank_chars, views,
};

verus! {

/// The three prompt caches: department parts, conversation-environment parts and finished
/// system prompts.
pub struct PromptCaches {
    pub department: PromptCache<DepartmentSystemPromptSnapshot>,
    pub environment: PromptCache<ConversationEnvironmentPromptSnapshot>,
    pub system: PromptCache<SystemPromptCacheEntry>,
}

impl PromptCaches {
    /// Empty caches.
    pub fn new() -> (out: Self)
        ensures
            out.department@ == Map::<Seq<char>, DepartmentSnapshotView>::empty(),
            out.environment@ == Map::<Seq<char>, EnvironmentSnapshotView>::empty(),
            out.system@ == Map::<Seq<char>, SystemPromptEntryView>::empty(),
    {
        PromptCaches {
            department: PromptCache::new(),
            environment: PromptCache::new(),
            system: PromptCache::new(),
        }
    }
}

/// The cache of department parts, for lookups and updates.
pub fn department_system_prompt_cache(caches: &mut PromptCaches) -> (out: &mut PromptCache<
    DepartmentSystemPromptSnapshot,
>)
    ensures
        *out == old(caches).department,
        final(caches).department == *final(out),
        final(caches).environment == old(caches).environment,
        final(caches).system == old(caches).system,
{
    &mut caches.department
}

/// The cache of conversation-environment parts, for lookups and updates.
pub fn conversation_environment_prompt_cache(caches: &mut PromptCaches) -> (out: &mut PromptCache<
    ConversationEnvironmentPromptSnapshot,
>)
    ensures
        *out == old(caches).environment,
        final(caches).environment == *final(out),
        final(caches).department == old(caches).department,
        final(caches).system == old(caches).system,
{
    &mut caches.environment
}

/// The cache of finished system prompts, for lookups and updates.
pub fn system_prompt_cache(caches: &mut PromptCaches) -> (out: &mut PromptCache<
    SystemPromptCacheEntry,
>)
    ensures
        *out == old(caches).system,
        final(caches).system == *final(out),
        final(caches).department == old(caches).department,
        final(caches).environment == old(caches).environment,
{
    &mut caches.system
}

/// The inputs of a system prompt that other parts of the application compute: the
/// department prompt block and tool-rule blocks, whether the agent's department enables
/// the builtin `remember`, `recall`, `plan` and `meme` tools, the rule blocks of those tools
/// (the meme block is absent when there is none), and the time of the build.
pub struct PromptBuildInputs {
    pub department_prompt_block: String,
    pub department_tool_rule_blocks: Vec<String>,
    pub remember_enabled: bool,
    pub recall_enabled: bool,
    pub plan_enabled: bool,
    pub meme_enabled: bool,
    pub memory_rules: String,
    pub planning_rules: String,
    pub meme_rules: Option<String>,
    pub rebuilt_at: String,
}

// ---------------------------------------------------------------------------
// Specification
// ---------------------------------------------------------------------------

/// What a cache holds under `key`, or `fresh` when it holds nothing there.
pub open spec fn cached_or<V>(m: Map<Seq<char>, V>, key: Seq<char>, fresh: V) -> V {
    if m.contains_key(key) {
        m[key]
    } else {
        fresh
    }
}

/// The department part served for a request, given the department cache before it.
pub open spec fn department_part(
    cache: Map<Seq<char>, DepartmentSnapshotView>,
    state: Option<&AppState>,
    conversation: &Conversation,
    agent: &AgentProfile,
    departments: Seq<DepartmentConfig>,
    current: Option<&DepartmentConfig>,
    ui_language: Seq<char>,
    inputs: &PromptBuildInputs,
) -> DepartmentSnapshotView {
    cached_or(
        cache,
        department_cache_key(state, conversation, agent, departments, current, ui_language),
        department_snapshot(
            inputs.department_prompt_block@,
            texts(inputs.department_tool_rule_blocks@),
            inputs.rebuilt_at@,
        ),
    )
}

/// The key of the environment part for a request.
pub open spec fn environment_key(
    state: Option<&AppState>,
    conversation: &Conversation,
    ui_language: Seq<char>,
    terminal_block: Option<&str>,
    preamble: Seq<String>,
) -> Seq<char> {
    environment_cache_key(
        state,
        conversation,
        ui_language,
        terminal_block,
        preamble_group(preamble, SystemPromptExtraBlockGroup::Runtime),
        preamble_group(preamble, SystemPromptExtraBlockGroup::ImRules),
    )
}

/// The environment part served for a request, given the environment cache before it.
pub open spec fn environment_part(
    cache: Map<Seq<char>, EnvironmentSnapshotView>,
    state: Option<&AppState>,
    conversation: &Conversation,
    ui_language: Seq<char>,
    terminal_block: Option<&str>,
    preamble: Seq<String>,
    rebuilt_at: Seq<char>,
) -> EnvironmentSnapshotView {
    cached_or(
        cache,
        environment_key(state, conversation, ui_language, terminal_block, preamble),
        environment_snapshot(
            conversation,
            terminal_block,
            preamble_group(preamble, SystemPromptExtraBlockGroup::Runtime),
            preamble_group(preamble, SystemPromptExtraBlockGroup::ImRules),
            rebuilt_at,
        ),
    )
}

/// The trimmed text as a single block unless it is blank.
pub open spec fn lead_block(s: Seq<char>) -> Seq<Seq<char>> {
    if is_blank(s) {
        Seq::empty()
    } else {
        seq![trim(s)]
    }
}

/// The tool-rule blocks: the memory rules when `remember` or `recall` is enabled, the
/// department's tool rules, the planning rules when `plan` is enabled, the trimmed meme
/// block when `meme` is enabled and there is one, then the tool-rule preamble blocks.
pub open spec fn tool_rule_blocks(
    inputs: &PromptBuildInputs,
    department_tool_blocks: Seq<Seq<char>>,
    preamble: Seq<String>,
) -> Seq<Seq<char>> {
    (if inputs.remember_enabled || inputs.recall_enabled {
        seq![inputs.memory_rules@]
    } else {
        Seq::empty()
    }) + department_tool_blocks + (if inputs.plan_enabled {
        seq![inputs.planning_rules@]
    } else {
        Seq::empty()
    }) + (match inputs.meme_rules {
        Some(m) if inputs.meme_enabled => seq![trim(m@)],
        _ => Seq::empty(),
    }) + preamble_group(preamble, SystemPromptExtraBlockGroup::ToolRules)
}

/// The ordered blocks of a system prompt: the fixed text, the department block, the tool
/// rules, the user-profile memory block, the runtime blocks and the IM rule blocks, each
/// trimmed and without blank ones.
pub open spec fn ordered_blocks(
    fixed_system_prompt_text: Seq<char>,
    dept: DepartmentSnapshotView,
    tools: Seq<Seq<char>>,
    user_profile_memory_block: Option<&str>,
    env: EnvironmentSnapshotView,
) -> Seq<Seq<char>> {
    lead_block(fixed_system_prompt_text) + lead_block(dept.department_prompt_block)
        + trimmed_nonblank(tools) + (match user_profile_memory_block {
        Some(p) => lead_block(p@),
        None => Seq::empty(),
    }) + trimmed_nonblank(env.runtime_blocks) + trimmed_nonblank(env.im_rule_blocks)
}

/// The ordered blocks served for a request, given the caches before it.
pub open spec fn request_ordered_blocks(
    department_cache: Map<Seq<char>, DepartmentSnapshotView>,
    environment_cache: Map<Seq<char>, EnvironmentSnapshotView>,
    state: Option<&AppState>,
    conversation: &Conversation,
    agent: &AgentProfile,
    departments: Seq<DepartmentConfig>,
    current: Option<&DepartmentConfig>,
    ui_language: Seq<char>,
    fixed_system_prompt_text: Seq<char>,
    user_profile_memory_block: Option<&str>,
    terminal_block: Option<&str>,
    preamble: Seq<String>,
    inputs: &PromptBuildInputs,
) -> Seq<Seq<char>> {
    let dept = department_part(
        department_cache,
        state,
        conversation,
        agent,
        departments,
        current,
        ui_language,
        inputs,
    );
    let env = environment_part(
        environment_cache,
        state,
        conversation,
        ui_language,
        terminal_block,
        preamble,
        inputs.rebuilt_at@,
    );
    ordered_blocks(
        fixed_system_prompt_text,
        dept,
        tool_rule_blocks(inputs, dept.department_tool_rule_blocks, preamble),
        user_profile_memory_block,
        env,
    )
}

/// The department cache after a request: the served part stored under the request's key.
pub open spec fn department_cache_after(
    cache: Map<Seq<char>, DepartmentSnapshotView>,
    state: Option<&AppState>,
    conversation: &Conversation,
    agent: &AgentProfile,
    departments: Seq<DepartmentConfig>,
    current: Option<&DepartmentConfig>,
    ui_language: Seq<char>,
    inputs: &PromptBuildInputs,
) -> Map<Seq<char>, DepartmentSnapshotView> {
    cache.insert(
        department_cache_key(state, conversation, agent, departments, current, ui_language),
        department_part(cache, state, conversation, agent, departments, current, ui_language, inputs),
    )
}

/// The environment cache after a request: the served part stored under the request's key.
pub open spec fn environment_cache_after(
    cache: Map<Seq<char>, EnvironmentSnapshotView>,
    state: Option<&AppState>,
    conversation: &Conversation,
    ui_language: Seq<char>,
    terminal_block: Option<&str>,
    preamble: Seq<String>,
    rebuilt_at: Seq<char>,
) -> Map<Seq<char>, EnvironmentSnapshotView> {
    cache.insert(
        environment_key(state, conversation, ui_language, terminal_block, preamble),
        environment_part(cache, state, conversation, ui_language, terminal_block, preamble, rebuilt_at),
    )
}

/// The key of the finished system prompt for a request, given the caches before it.
pub open spec fn request_system_key(
    department_cache: Map<Seq<char>, DepartmentSnapshotView>,
    environment_cache: Map<Seq<char>, EnvironmentSnapshotView>,
    state: Option<&AppState>,
    mode_label: Seq<char>,
    conversation: &Conversation,
    agent: &AgentProfile,
    departments: Seq<DepartmentConfig>,
    current: Option<&DepartmentConfig>,
    ui_language: Seq<char>,
    fixed_system_prompt_text: Seq<char>,
    user_profile_memory_block: Option<&str>,
    terminal_block: Option<&str>,
    preamble: Seq<String>,
    inputs: &PromptBuildInputs,
) -> Seq<char> {
    system_prompt_cache_key(
        state,
        mode_label,
        agent,
        request_ordered_blocks(
            department_cache,
            environment_cache,
            state,
            conversation,
            agent,
            departments,
            current,
            ui_language,
            fixed_system_prompt_text,
            user_profile_memory_block,
            terminal_block,
            preamble,
            inputs,
        ),
    )
}

/// The finished system prompt entry served for a request, given the caches before it: the
/// cached entry under the request's key, or else the prompt text of its ordered blocks.
pub open spec fn request_system_entry(
    system_cache: Map<Seq<char>, SystemPromptEntryView>,
    department_cache: Map<Seq<char>, DepartmentSnapshotView>,
    environment_cache: Map<Seq<char>, EnvironmentSnapshotView>,
    state: Option<&AppState>,
    mode_label: Seq<char>,
    conversation: &Conversation,
    agent: &AgentProfile,
    departments: Seq<DepartmentConfig>,
    current: Option<&DepartmentConfig>,
    ui_language: Seq<char>,
    fixed_system_prompt_text: Seq<char>,
    user_profile_memory_block: Option<&str>,
    terminal_block: Option<&str>,
    preamble: Seq<String>,
    inputs: &PromptBuildInputs,
) -> SystemPromptEntryView {
    let ordered = request_ordered_blocks(
        department_cache,
        environment_cache,
        state,
        conversation,
        agent,
        departments,
        current,
        ui_language,
        fixed_system_prompt_text,
        user_profile_memory_block,
        terminal_block,
        preamble,
        inputs,
    );
    cached_or(
        system_cache,
        system_prompt_cache_key(state, mode_label, agent, ordered),
        SystemPromptEntryView { prompt_text: prompt_text(ordered), rebuilt_at: inputs.rebuilt_at@ },
    )
}

/// Whether two sets of inputs carry the same builtin-tool rule blocks (the parts of a
/// prompt that no cache holds).
pub open spec fn same_tool_rules(a: &PromptBuildInputs, b: &PromptBuildInputs) -> bool {
    &&& a.remember_enabled == b.remember_enabled
    &&& a.recall_enabled == b.recall_enabled
    &&& a.plan_enabled == b.plan_enabled
    &&& a.meme_enabled == b.meme_enabled
    &&& a.memory_rules@ == b.memory_rules@
    &&& a.planning_rules@ == b.planning_rules@
    &&& a.meme_rules == b.meme_rules
}

// ---------------------------------------------------------------------------
// Laws of the block order
// ---------------------------------------------------------------------------

/// Two sets of inputs that agree on everything but the builtin-tool flags.
pub open spec fn same_parts_but_flags(a: &PromptBuildInputs, b: &PromptBuildInputs) -> bool {
    &&& a.department_prompt_block@ == b.department_prompt_block@
    &&& texts(a.department_tool_rule_blocks@) == texts(b.department_tool_rule_blocks@)
    &&& a.memory_rules@ == b.memory_rules@
    &&& a.planning_rules@ == b.planning_rules@
    &&& a.meme_rules == b.meme_rules
    &&& a.rebuilt_at@ == b.rebuilt_at@
}

/// One more (non-blank) tool-rule block at index `i` of the tool rules is one more block,
/// trimmed, in the ordered blocks, right after the fixed text, the department block and the
/// kept tool rules before index `i`.
proof fn lemma_ordered_insert_tool(
    fixed_system_prompt_text: Seq<char>,
    dept: DepartmentSnapshotView,
    tools: Seq<Seq<char>>,
    i: int,
    x: Seq<char>,
    user_profile_memory_block: Option<&str>,
    env: EnvironmentSnapshotView,
)
    requires
        0 <= i <= tools.len(),
        !is_blank(x),
    ensures
        ({
            let o = ordered_blocks(
                fixed_system_prompt_text,
                dept,
                tools,
                user_profile_memory_block,
                env,
            );
            let p = lead_block(fixed_system_prompt_text).len() + lead_block(
                dept.department_prompt_block,
            ).len() + trimmed_nonblank(tools.take(i)).len();
            ordered_blocks(
                fixed_system_prompt_text,
                dept,
                tools.take(i) + seq![x] + tools.skip(i),
                user_profile_memory_block,
                env,
            ) == o.take(p as int) + seq![trim(x)] + o.skip(p as int)
        }),
{
    let a = tools.take(i);
    let b = tools.skip(i);
    assert(tools =~= a + b);
    lemma_trimmed_nonblank_concat(a, b);
    lemma_trimmed_nonblank_concat(a + seq![x], b);
    lemma_trimmed_nonblank_concat(a, seq![x]);
    lemma_trimmed_nonblank_single(x);
    let o = ordered_blocks(fixed_system_prompt_text, dept, tools, user_profile_memory_block, env);
    let p = lead_block(fixed_system_prompt_text).len() + lead_block(dept.department_prompt_block).len()
        + trimmed_nonblank(a).len();
    assert(ordered_blocks(
        fixed_system_prompt_text,
        dept,
        a + seq![x] + b,
        user_profile_memory_block,
        env,
    ) =~= o.take(p as int) + seq![trim(x)] + o.skip(p as int));
}

/// Enabling `remember` or `recall` adds the memory rules (when not blank) as one block,
/// trimmed, right after the fixed text and the department block: before every other tool
/// rule, and nothing else changes.
pub proof fn lemma_memory_rules_come_first(
    department_cache: Map<Seq<char>, DepartmentSnapshotView>,
    environment_cache: Map<Seq<char>, EnvironmentSnapshotView>,
    state: Option<&AppState>,
    conversation: &Conversation,
    agent: &AgentProfile,
    departments: Seq<DepartmentConfig>,
    current: Option<&DepartmentConfig>,
    ui_language: Seq<char>,
    fixed_system_prompt_text: Seq<char>,
    user_profile_memory_block: Option<&str>,
    terminal_block: Option<&str>,
    preamble: Seq<String>,
    without: &PromptBuildInputs,
    with: &PromptBuildInputs,
)
    requires
        same_parts_but_flags(without, with),
        !without.remember_enabled && !without.recall_enabled,
        with.remember_enabled || with.recall_enabled,
        with.plan_enabled == without.plan_enabled,
        with.meme_enabled == without.meme_enabled,
        !is_blank(with.memory_rules@),
    ensures
        ({
            let before = request_ordered_blocks(
            department_cache,
            environment_cache,
            state,
            conversation,
            agent,
            departments,
            current,
            ui_language,
            fixed_system_prompt_text,
            user_profile_memory_block,
            terminal_block,
            preamble,
            without,
        );
            let dept = department_part(
            department_cache,
            state,
            conversation,
            agent,
            departments,
            current,
            ui_language,
            without,
        );
            let p = lead_block(fixed_system_prompt_text).len() + lead_block(
                dept.department_prompt_block,
            ).len();
            request_ordered_blocks(
            department_cache,
            environment_cache,
            state,
            conversation,
            agent,
            departments,
            current,
            ui_language,
            fixed_system_prompt_text,
            user_profile_memory_block,
            terminal_block,
            preamble,
            with,
        ) == before.take(p as int) + seq![trim(with.memory_rules@)] + before.skip(p as int)
        }),
{
    let dept = department_part(
            department_cache,
            state,
            conversation,
            agent,
            departments,
            current,
            ui_language,
            without,
        );
    let env = environment_part(
        environment_cache,
        state,
        conversation,
        ui_language,
        terminal_block,
        preamble,
        without.rebuilt_at@,
    );
    let t0 = tool_rule_blocks(without, dept.department_tool_rule_blocks, preamble);
    let t1 = tool_rule_blocks(with, dept.department_tool_rule_blocks, preamble);
    let i = 0int;
    assert(t1 =~= t0.take(i) + seq![with.memory_rules@] + t0.skip(i));
    lemma_ordered_insert_tool(
        fixed_system_prompt_text,
        dept,
        t0,
        i,
        with.memory_rules@,
        user_profile_memory_block,
        env,
    );
    assert(t0.take(0) =~= Seq::<Seq<char>>::empty());
}

/// Enabling `plan` adds the planning rules (when not blank) as one block, trimmed, right
/// after the memory rules and every kept department tool rule, and nothing else changes.
pub proof fn lemma_planning_rules_follow_department_tool_rules(
    department_cache: Map<Seq<char>, DepartmentSnapshotView>,
    environment_cache: Map<Seq<char>, EnvironmentSnapshotView>,
    state: Option<&AppState>,
    conversation: &Conversation,
    agent: &AgentProfile,
    departments: Seq<DepartmentConfig>,
    current: Option<&DepartmentConfig>,
    ui_language: Seq<char>,
    fixed_system_prompt_text: Seq<char>,
    user_profile_memory_block: Option<&str>,
    terminal_block: Option<&str>,
    preamble: Seq<String>,
    without: &PromptBuildInputs,
    with: &PromptBuildInputs,
)
    requires
        same_parts_but_flags(without, with),
        with.remember_enabled == without.remember_enabled,
        with.recall_enabled == without.recall_enabled,
        !without.plan_enabled,
        with.plan_enabled,
        with.meme_enabled == without.meme_enabled,
        !is_blank(with.planning_rules@),
    ensures
        ({
            let before = request_ordered_blocks(
            department_cache,
            environment_cache,
            state,
            conversation,
            agent,
            departments,
            current,
            ui_language,
            fixed_system_prompt_text,
            user_profile_memory_block,
            terminal_block,
            preamble,
            without,
        );
            let dept = department_part(
            department_cache,
            state,
            conversation,
            agent,
            departments,
            current,
            ui_language,
            without,
        );
            let p = lead_block(fixed_system_prompt_text).len() + lead_block(
                dept.department_prompt_block,
            ).len() + (if with.remember_enabled || with.recall_enabled {
                lead_block(with.memory_rules@).len()
            } else {
                0
            }) + trimmed_nonblank(dept.department_tool_rule_blocks).len();
            request_ordered_blocks(
            department_cache,
            environment_cache,
            state,
            conversation,
            agent,
            departments,
            current,
            ui_language,
            fixed_system_prompt_text,
            user_profile_memory_block,
            terminal_block,
            preamble,
            with,
        ) == before.take(p as int) + seq![trim(with.planning_rules@)] + before.skip(p as int)
        }),
{
    let m: int = if without.remember_enabled || without.recall_enabled {
        1
    } else {
        0
    };
    let dept = department_part(
            department_cache,
            state,
            conversation,
            agent,
            departments,
            current,
            ui_language,
            without,
        );
    let env = environment_part(
        environment_cache,
        state,
        conversation,
        ui_language,
        terminal_block,
        preamble,
        without.rebuilt_at@,
    );
    let t0 = tool_rule_blocks(without, dept.department_tool_rule_blocks, preamble);
    let t1 = tool_rule_blocks(with, dept.department_tool_rule_blocks, preamble);
    let i = m + dept.department_tool_rule_blocks.len();
    assert(t1 =~= t0.take(i) + seq![with.planning_rules@] + t0.skip(i));
    lemma_ordered_insert_tool(
        fixed_system_prompt_text,
        dept,
        t0,
        i,
        with.planning_rules@,
        user_profile_memory_block,
        env,
    );
    let mem: Seq<Seq<char>> = if m == 1 {
        seq![without.memory_rules@]
    } else {
        Seq::empty()
    };
    assert(t0.take(i) =~= mem + dept.department_tool_rule_blocks);
    lemma_trimmed_nonblank_concat(mem, dept.department_tool_rule_blocks);
    lemma_trimmed_nonblank_single(without.memory_rules@);
}

/// Enabling `meme` with a (non-blank) meme block adds that block, trimmed, right after the
/// memory rules, every kept department tool rule and the planning rules, before the preamble
/// tool rules, and nothing else changes.
pub proof fn lemma_meme_rules_follow_planning_rules(
    department_cache: Map<Seq<char>, DepartmentSnapshotView>,
    environment_cache: Map<Seq<char>, EnvironmentSnapshotView>,
    state: Option<&AppState>,
    conversation: &Conversation,
    agent: &AgentProfile,
    departments: Seq<DepartmentConfig>,
    current: Option<&DepartmentConfig>,
    ui_language: Seq<char>,
    fixed_system_prompt_text: Seq<char>,
    user_profile_memory_block: Option<&str>,
    terminal_block: Option<&str>,
    preamble: Seq<String>,
    without: &PromptBuildInputs,
    with: &PromptBuildInputs,
)
    requires
        same_parts_but_flags(without, with),
        with.remember_enabled == without.remember_enabled,
        with.recall_enabled == without.recall_enabled,
        with.plan_enabled == without.plan_enabled,
        !without.meme_enabled,
        with.meme_enabled,
        with.meme_rules matches Some(m) && !is_blank(m@),
    ensures
        ({
            let before = request_ordered_blocks(
            department_cache,
            environment_cache,
            state,
            conversation,
            agent,
            departments,
            current,
            ui_language,
            fixed_system_prompt_text,
            user_profile_memory_block,
            terminal_block,
            preamble,
            without,
        );
            let dept = department_part(
            department_cache,
            state,
            conversation,
            agent,
            departments,
            current,
            ui_language,
            without,
        );
            let p = lead_block(fixed_system_prompt_text).len() + lead_block(
                dept.department_prompt_block,
            ).len() + (if with.remember_enabled || with.recall_enabled {
                lead_block(with.memory_rules@).len()
            } else {
                0
            }) + trimmed_nonblank(dept.department_tool_rule_blocks).len() + (if with.plan_enabled {
                lead_block(with.planning_rules@).len()
            } else {
                0
            });
            request_ordered_blocks(
            department_cache,
            environment_cache,
            state,
            conversation,
            agent,
            departments,
            current,
            ui_language,
            fixed_system_prompt_text,
            user_profile_memory_block,
            terminal_block,
            preamble,
            with,
        ) == before.take(p as int) + seq![trim(with.meme_rules->0@)] + before.skip(p as int)
        }),
{
    let meme = with.meme_rules->0@;
    lemma_trim_ends(meme);
    let m: int = if without.remember_enabled || without.recall_enabled {
        1
    } else {
        0
    };
    let q: int = if without.plan_enabled {
        1
    } else {
        0
    };
    let dept = department_part(
            department_cache,
            state,
            conversation,
            agent,
            departments,
            current,
            ui_language,
            without,
        );
    let env = environment_part(
        environment_cache,
        state,
        conversation,
        ui_language,
        terminal_block,
        preamble,
        without.rebuilt_at@,
    );
    let t0 = tool_rule_blocks(without, dept.department_tool_rule_blocks, preamble);
    let t1 = tool_rule_blocks(with, dept.department_tool_rule_blocks, preamble);
    let i = m + dept.department_tool_rule_blocks.len() + q;
    assert(t1 =~= t0.take(i) + seq![trim(meme)] + t0.skip(i));
    lemma_ordered_insert_tool(
        fixed_system_prompt_text,
        dept,
        t0,
        i,
        trim(meme),
        user_profile_memory_block,
        env,
    );
    let mem: Seq<Seq<char>> = if m == 1 {
        seq![without.memory_rules@]
    } else {
        Seq::empty()
    };
    let plan: Seq<Seq<char>> = if q == 1 {
        seq![without.planning_rules@]
    } else {
        Seq::empty()
    };
    assert(t0.take(i) =~= mem + dept.department_tool_rule_blocks + plan);
    lemma_trimmed_nonblank_concat(mem, dept.department_tool_rule_blocks);
    lemma_trimmed_nonblank_concat(mem + dept.department_tool_rule_blocks, plan);
    lemma_trimmed_nonblank_single(without.memory_rules@);
    lemma_trimmed_nonblank_single(without.planning_rules@);
}

// ---------------------------------------------------------------------------
// Laws of the caches
// ---------------------------------------------------------------------------

/// Once a lookup under a key has been served and stored, a later lookup under that key
/// serves the same value, whatever it would have built afresh; and storing what a hit
/// served leaves the cache as it was.
pub proof fn lemma_cached_or_repeat<V>(m: Map<Seq<char>, V>, key: Seq<char>, first: V, second: V)
    ensures
        cached_or(m.insert(key, cached_or(m, key, first)), key, second) == cached_or(m, key, first),
        m.contains_key(key) ==> m.insert(key, cached_or(m, key, first)) == m,
{
    if m.contains_key(key) {
        assert(m.insert(key, m[key]) =~= m);
    }
}

/// A repeated request for the department part of the same agent, departments, context and
/// language is served the part of the first request, whatever the new inputs hold.
pub proof fn lemma_department_part_repeat(
    cache: Map<Seq<char>, DepartmentSnapshotView>,
    state: Option<&AppState>,
    conversation: &Conversation,
    agent: &AgentProfile,
    departments: Seq<DepartmentConfig>,
    current: Option<&DepartmentConfig>,
    ui_language: Seq<char>,
    first: &PromptBuildInputs,
    second: &PromptBuildInputs,
)
    ensures
        department_part(
            department_cache_after(cache, state, conversation, agent, departments, current, ui_language, first),
            state,
            conversation,
            agent,
            departments,
            current,
            ui_language,
            second,
        ) == department_part(cache, state, conversation, agent, departments, current, ui_language, first),
{
}

/// A repeated request for the environment part of the same conversation, shell, language and
/// preamble is served the part of the first request, whatever time it is rebuilt at.
pub proof fn lemma_environment_part_repeat(
    cache: Map<Seq<char>, EnvironmentSnapshotView>,
    state: Option<&AppState>,
    conversation: &Conversation,
    ui_language: Seq<char>,
    terminal_block: Option<&str>,
    preamble: Seq<String>,
    first_rebuilt_at: Seq<char>,
    second_rebuilt_at: Seq<char>,
)
    ensures
        environment_part(
            environment_cache_after(cache, state, conversation, ui_language, terminal_block, preamble, first_rebuilt_at),
            state,
            conversation,
            ui_language,
            terminal_block,
            preamble,
            second_rebuilt_at,
        ) == environment_part(cache, state, conversation, ui_language, terminal_block, preamble, first_rebuilt_at),
{
}

/// Repeating a system prompt request with the same builtin-tool rules yields the prompt of the
/// first request, served from the caches that the first request left: the department block,
/// the department tool rules and the build time of the repeat are not read, and the repeat
/// leaves the system prompt cache as the first request left it.
pub proof fn lemma_system_prompt_repeat(
    department_cache: Map<Seq<char>, DepartmentSnapshotView>,
    environment_cache: Map<Seq<char>, EnvironmentSnapshotView>,
    system_cache: Map<Seq<char>, SystemPromptEntryView>,
    state: Option<&AppState>,
    mode_label: Seq<char>,
    conversation: &Conversation,
    agent: &AgentProfile,
    departments: Seq<DepartmentConfig>,
    current: Option<&DepartmentConfig>,
    ui_language: Seq<char>,
    fixed_system_prompt_text: Seq<char>,
    user_profile_memory_block: Option<&str>,
    terminal_block: Option<&str>,
    preamble: Seq<String>,
    first: &PromptBuildInputs,
    second: &PromptBuildInputs,
)
    requires
        same_tool_rules(first, second),
    ensures
        ({
            let d1 = department_cache_after(
                department_cache,
                state,
                conversation,
                agent,
                departments,
                current,
                ui_language,
                first,
            );
            let e1 = environment_cache_after(
                environment_cache,
                state,
                conversation,
                ui_language,
                terminal_block,
                preamble,
                first.rebuilt_at@,
            );
            let k1 = request_system_key(
                department_cache,
                environment_cache,
                state,
                mode_label,
                conversation,
                agent,
                departments,
                current,
                ui_language,
                fixed_system_prompt_text,
                user_profile_memory_block,
                terminal_block,
                preamble,
                first,
            );
            let entry1 = request_system_entry(
                system_cache,
                department_cache,
                environment_cache,
                state,
                mode_label,
                conversation,
                agent,
                departments,
                current,
                ui_language,
                fixed_system_prompt_text,
                user_profile_memory_block,
                terminal_block,
                preamble,
                first,
            );
            let s1 = system_cache.insert(k1, entry1);
            &&& request_system_key(
                d1,
                e1,
                state,
                mode_label,
                conversation,
                agent,
                departments,
                current,
                ui_language,
                fixed_system_prompt_text,
                user_profile_memory_block,
                terminal_block,
                preamble,
                second,
            ) == k1
            &&& request_system_entry(
                s1,
                d1,
                e1,
                state,
                mode_label,
                conversation,
                agent,
                departments,
                current,
                ui_language,
                fixed_system_prompt_text,
                user_profile_memory_block,
                terminal_block,
                preamble,
                second,
            ) == entry1
            &&& s1.insert(k1, entry1) == s1
        }),
{
    let d1 = department_cache_after(
        department_cache,
        state,
        conversation,
        agent,
        departments,
        current,
        ui_language,
        first,
    );
    let e1 = environment_cache_after(
        environment_cache,
        state,
        conversation,
        ui_language,
        terminal_block,
        preamble,
        first.rebuilt_at@,
    );
    lemma_department_part_repeat(
        department_cache,
        state,
        conversation,
        agent,
        departments,
        current,
        ui_language,
        first,
        second,
    );
    lemma_environment_part_repeat(
        environment_cache,
        state,
        conversation,
        ui_language,
        terminal_block,
        preamble,
        first.rebuilt_at@,
        second.rebuilt_at@,
    );
    let dept = department_part(
        department_cache,
        state,
        conversation,
        agent,
        departments,
        current,
        ui_language,
        first,
    );
    assert(tool_rule_blocks(second, dept.department_tool_rule_blocks, preamble) == tool_rule_blocks(
        first,
        dept.department_tool_rule_blocks,
        preamble,
    ));
    let k1 = request_system_key(
        department_cache,
        environment_cache,
        state,
        mode_label,
        conversation,
        agent,
        departments,
        current,
        ui_language,
        fixed_system_prompt_text,
        user_profile_memory_block,
        terminal_block,
        preamble,
        first,
    );
    let entry1 = request_system_entry(
        system_cache,
        department_cache,
        environment_cache,
        state,
        mode_label,
        conversation,
        agent,
        departments,
        current,
        ui_language,
        fixed_system_prompt_text,
        user_profile_memory_block,
        terminal_block,
        preamble,
        first,
    );
    assert(system_cache.insert(k1, entry1).insert(k1, entry1) =~= system_cache.insert(k1, entry1));
}

// ---------------------------------------------------------------------------
// The system prompt cache holds what a fresh build gives
// ---------------------------------------------------------------------------

/// A system prompt key written out from its parts: the scope, the trimmed mode label, the
/// trimmed agent id and the ordered blocks.
pub open spec fn prompt_key_text(
    scope: Seq<char>,
    mode: Seq<char>,
    agent_id: Seq<char>,
    blocks: Seq<Seq<char>>,
) -> Seq<char> {
    "scope="@ + (scope + ("|mode="@ + (mode + ("|agent="@ + (agent_id + ("|ordered_blocks="@
        + join(trimmed_nonblank(blocks), "\n<block-sep>\n"@)))))))
}

/// Key parts that can be read back from their key: the scope, mode and agent id hold no `|`,
/// and no trimmed block holds the block marker `<block-sep>`.
pub open spec fn key_parts_readable(
    scope: Seq<char>,
    mode: Seq<char>,
    agent_id: Seq<char>,
    blocks: Seq<Seq<char>>,
) -> bool {
    &&& !has_char(scope, '|')
    &&& !has_char(mode, '|')
    &&& !has_char(agent_id, '|')
    &&& forall|i: int|
        0 <= i < trimmed_nonblank(blocks).len() ==> !contains(
            #[trigger] trimmed_nonblank(blocks)[i],
            "<block-sep>"@,
        )
}

/// The requests that a system prompt cache may be asked for, each given by its scope, trimmed
/// mode label, trimmed agent id and ordered blocks.
pub type RequestSet = spec_fn(Seq<char>, Seq<char>, Seq<char>, Seq<Seq<char>>) -> bool;

/// Requests whose keys do not collide: two requests of the set with one key have blocks of
/// the same prompt text.
pub open spec fn keys_collision_free(admitted: RequestSet) -> bool {
    forall|
        scope: Seq<char>,
        mode: Seq<char>,
        agent_id: Seq<char>,
        blocks: Seq<Seq<char>>,
        scope2: Seq<char>,
        mode2: Seq<char>,
        agent_id2: Seq<char>,
        blocks2: Seq<Seq<char>>,
    |
        #![trigger prompt_key_text(scope, mode, agent_id, blocks), prompt_key_text(scope2, mode2, agent_id2, blocks2)]
        admitted(scope, mode, agent_id, blocks) && admitted(scope2, mode2, agent_id2, blocks2)
            && prompt_key_text(scope, mode, agent_id, blocks) == prompt_key_text(
            scope2,
            mode2,
            agent_id2,
            blocks2,
        ) ==> prompt_text(blocks) == prompt_text(blocks2)
}

/// Every entry of a system prompt cache holds the prompt text of the blocks of each admitted
/// request that its key stands for.
pub open spec fn system_cache_sound(
    cache: Map<Seq<char>, SystemPromptEntryView>,
    admitted: RequestSet,
) -> bool {
    forall|scope: Seq<char>, mode: Seq<char>, agent_id: Seq<char>, blocks: Seq<Seq<char>>|
        #![trigger cache.contains_key(prompt_key_text(scope, mode, agent_id, blocks))]
        cache.contains_key(prompt_key_text(scope, mode, agent_id, blocks)) && admitted(
            scope,
            mode,
            agent_id,
            blocks,
        ) ==> cache[prompt_key_text(scope, mode, agent_id, blocks)].prompt_text == prompt_text(
            blocks,
        )
}

/// The key of a system prompt is its parts written out.
pub proof fn lemma_system_key_text(
    state: Option<&AppState>,
    mode_label: Seq<char>,
    agent: &AgentProfile,
    blocks: Seq<Seq<char>>,
)
    ensures
        system_prompt_cache_key(state, mode_label, agent, blocks) == prompt_key_text(
            scope_key(state),
            trim(mode_label),
            trim(agent.id@),
            blocks,
        ),
{
    assert(system_prompt_cache_key(state, mode_label, agent, blocks) =~= prompt_key_text(
        scope_key(state),
        trim(mode_label),
        trim(agent.id@),
        blocks,
    ));
}

/// Equal keys whose parts can be read back have equal parts, and their blocks give the same
/// prompt text.
pub proof fn lemma_prompt_key_readable(
    scope: Seq<char>,
    mode: Seq<char>,
    agent_id: Seq<char>,
    blocks: Seq<Seq<char>>,
    scope2: Seq<char>,
    mode2: Seq<char>,
    agent_id2: Seq<char>,
    blocks2: Seq<Seq<char>>,
)
    requires
        key_parts_readable(scope, mode, agent_id, blocks),
        key_parts_readable(scope2, mode2, agent_id2, blocks2),
        prompt_key_text(scope, mode, agent_id, blocks) == prompt_key_text(
            scope2,
            mode2,
            agent_id2,
            blocks2,
        ),
    ensures
        scope == scope2,
        mode == mode2,
        agent_id == agent_id2,
        trimmed_nonblank(blocks) == trimmed_nonblank(blocks2),
        prompt_text(blocks) == prompt_text(blocks2),
{
    reveal_strlit("|mode=");
    reveal_strlit("|agent=");
    reveal_strlit("|ordered_blocks=");
    reveal_strlit("<block-sep>");
    reveal_strlit("\n<block-sep>\n");
    let j = join(trimmed_nonblank(blocks), "\n<block-sep>\n"@);
    let j2 = join(trimmed_nonblank(blocks2), "\n<block-sep>\n"@);
    let r3 = "|ordered_blocks="@ + j;
    let r3b = "|ordered_blocks="@ + j2;
    let r2 = "|agent="@ + (agent_id + r3);
    let r2b = "|agent="@ + (agent_id2 + r3b);
    let r1 = "|mode="@ + (mode + r2);
    let r1b = "|mode="@ + (mode2 + r2b);
    lemma_cancel_prefix("scope="@, scope + r1, scope2 + r1b);
    lemma_split_before_char(scope, r1, scope2, r1b, '|');
    lemma_cancel_prefix("|mode="@, mode + r2, mode2 + r2b);
    lemma_split_before_char(mode, r2, mode2, r2b, '|');
    lemma_cancel_prefix("|agent="@, agent_id + r3, agent_id2 + r3b);
    lemma_split_before_char(agent_id, r3, agent_id2, r3b, '|');
    lemma_cancel_prefix("|ordered_blocks="@, j, j2);
    let m = "<block-sep>"@;
    assert("\n<block-sep>\n"@ =~= seq!['\n'] + m + seq!['\n']);
    assert(!has_char(m, '\n'));
    lemma_trimmed_nonblank_nonempty(blocks);
    lemma_trimmed_nonblank_nonempty(blocks2);
    lemma_join_marked_injective(trimmed_nonblank(blocks), trimmed_nonblank(blocks2), m);
    lemma_prompt_text_is_lines(blocks);
    lemma_prompt_text_is_lines(blocks2);
}

/// Requests whose parts can be read back from their keys do not collide.
pub proof fn lemma_readable_keys_collision_free()
    ensures
        keys_collision_free(
            |scope: Seq<char>, mode: Seq<char>, agent_id: Seq<char>, blocks: Seq<Seq<char>>|
                key_parts_readable(scope, mode, agent_id, blocks),
        ),
{
    assert forall|
        scope: Seq<char>,
        mode: Seq<char>,
        agent_id: Seq<char>,
        blocks: Seq<Seq<char>>,
        scope2: Seq<char>,
        mode2: Seq<char>,
        agent_id2: Seq<char>,
        blocks2: Seq<Seq<char>>,
    |
        key_parts_readable(scope, mode, agent_id, blocks) && key_parts_readable(
            scope2,
            mode2,
            agent_id2,
            blocks2,
        ) && prompt_key_text(scope, mode, agent_id, blocks) == prompt_key_text(
            scope2,
            mode2,
            agent_id2,
            blocks2,
        ) implies prompt_text(blocks) == prompt_text(blocks2) by {
        lemma_prompt_key_readable(scope, mode, agent_id, blocks, scope2, mode2, agent_id2, blocks2);
    }
}

/// An empty system prompt cache holds nothing wrong.
pub proof fn lemma_empty_system_cache_sound(admitted: RequestSet)
    ensures
        system_cache_sound(Map::<Seq<char>, SystemPromptEntryView>::empty(), admitted),
{
}

/// Serving a system prompt from a sound cache: for a request of a set whose keys do not
/// collide, the text served for its ordered blocks, on a cache hit and on a miss alike, is
/// the text a fresh build of those blocks gives; and the cache stays sound once the served
/// entry is stored under the key.
pub proof fn lemma_system_cache_serves_fresh_text(
    cache: Map<Seq<char>, SystemPromptEntryView>,
    admitted: RequestSet,
    state: Option<&AppState>,
    mode_label: Seq<char>,
    agent: &AgentProfile,
    ordered: Seq<Seq<char>>,
    rebuilt_at: Seq<char>,
)
    requires
        keys_collision_free(admitted),
        system_cache_sound(cache, admitted),
        admitted(scope_key(state), trim(mode_label), trim(agent.id@), ordered),
    ensures
        ({
            let key = system_prompt_cache_key(state, mode_label, agent, ordered);
            let entry = cached_or(
                cache,
                key,
                SystemPromptEntryView { prompt_text: prompt_text(ordered), rebuilt_at },
            );
            &&& entry.prompt_text == prompt_text(ordered)
            &&& system_cache_sound(cache.insert(key, entry), admitted)
        }),
{
    let key = system_prompt_cache_key(state, mode_label, agent, ordered);
    let entry = cached_or(
        cache,
        key,
        SystemPromptEntryView { prompt_text: prompt_text(ordered), rebuilt_at },
    );
    let (sc, md, id) = (scope_key(state), trim(mode_label), trim(agent.id@));
    lemma_system_key_text(state, mode_label, agent, ordered);
    assert(key == prompt_key_text(sc, md, id, ordered));
    if cache.contains_key(key) {
        assert(cache.contains_key(prompt_key_text(sc, md, id, ordered)));
    }
    let after = cache.insert(key, entry);
    assert forall|scope: Seq<char>, mode: Seq<char>, agent_id: Seq<char>, blocks: Seq<Seq<char>>|
        #![trigger after.contains_key(prompt_key_text(scope, mode, agent_id, blocks))]
        after.contains_key(prompt_key_text(scope, mode, agent_id, blocks)) && admitted(
            scope,
            mode,
            agent_id,
            blocks,
        ) implies after[prompt_key_text(scope, mode, agent_id, blocks)].prompt_text
        == prompt_text(blocks) by {
        let k = prompt_key_text(scope, mode, agent_id, blocks);
        if k == key {
            assert(prompt_key_text(sc, md, id, ordered) == k);
            assert(prompt_text(ordered) == prompt_text(blocks));
        } else {
            assert(cache.contains_key(k));
        }
    }
}

/// The system prompt a request is served from a sound cache is the text of its ordered
/// blocks, on a cache hit and on a miss alike, for a request of a set whose keys do not
/// collide; and the cache stays sound once the request's entry is stored.
pub proof fn lemma_system_prompt_is_fresh_text(
    system_cache: Map<Seq<char>, SystemPromptEntryView>,
    admitted: RequestSet,
    department_cache: Map<Seq<char>, DepartmentSnapshotView>,
    environment_cache: Map<Seq<char>, EnvironmentSnapshotView>,
    state: Option<&AppState>,
    mode_label: Seq<char>,
    conversation: &Conversation,
    agent: &AgentProfile,
    departments: Seq<DepartmentConfig>,
    current: Option<&DepartmentConfig>,
    ui_language: Seq<char>,
    fixed_system_prompt_text: Seq<char>,
    user_profile_memory_block: Option<&str>,
    terminal_block: Option<&str>,
    preamble: Seq<String>,
    inputs: &PromptBuildInputs,
)
    requires
        keys_collision_free(admitted),
        system_cache_sound(system_cache, admitted),
        admitted(
            scope_key(state),
            trim(mode_label),
            trim(agent.id@),
            request_ordered_blocks(
                department_cache,
                environment_cache,
                state,
                conversation,
                agent,
                departments,
                current,
                ui_language,
                fixed_system_prompt_text,
                user_profile_memory_block,
                terminal_block,
                preamble,
                inputs,
            ),
        ),
    ensures
        ({
            let ordered = request_ordered_blocks(
                department_cache,
                environment_cache,
                state,
                conversation,
                agent,
                departments,
                current,
                ui_language,
                fixed_system_prompt_text,
                user_profile_memory_block,
                terminal_block,
                preamble,
                inputs,
            );
            let entry = request_system_entry(
                system_cache,
                department_cache,
                environment_cache,
                state,
                mode_label,
                conversation,
                agent,
                departments,
                current,
                ui_language,
                fixed_system_prompt_text,
                user_profile_memory_block,
                terminal_block,
                preamble,
                inputs,
            );
            let key = request_system_key(
                department_cache,
                environment_cache,
                state,
                mode_label,
                conversation,
                agent,
                departments,
                current,
                ui_language,
                fixed_system_prompt_text,
                user_profile_memory_block,
                terminal_block,
                preamble,
                inputs,
            );
            &&& entry.prompt_text == prompt_text(ordered)
            &&& system_cache_sound(system_cache.insert(key, entry), admitted)
        }),
{
    let ordered = request_ordered_blocks(
        department_cache,
        environment_cache,
        state,
        conversation,
        agent,
        departments,
        current,
        ui_language,
        fixed_system_prompt_text,
        user_profile_memory_block,
        terminal_block,
        preamble,
        inputs,
    );
    lemma_system_cache_serves_fresh_text(
        system_cache,
        admitted,
        state,
        mode_label,
        agent,
        ordered,
        inputs.rebuilt_at@,
    );
}

// ---------------------------------------------------------------------------
// Executable prompt assembly
// ---------------------------------------------------------------------------

/// The department part of the system prompt for an agent: what the cache holds under the
/// request's key, or else a snapshot built from `inputs`, which is then cached under it.
pub fn get_or_build_department_system_prompt_snapshot(
    caches: &mut PromptCaches,
    state: Option<&AppState>,
    conversation: &Conversation,
    agent: &AgentProfile,
    departments: &[DepartmentConfig],
    current_department: Option<&DepartmentConfig>,
    ui_language: &str,
    inputs: &PromptBuildInputs,
) -> (out: DepartmentSystemPromptSnapshot)
    ensures
        ({
            let key = department_cache_key(
                state,
                conversation,
                agent,
                departments@,
                current_department,
                ui_language@,
            );
            &&& out@ == department_part(
                old(caches).department@,
                state,
                conversation,
                agent,
                departments@,
                current_department,
                ui_language@,
                inputs,
            )
            &&& final(caches).department@ == old(caches).department@.insert(key, out@)
            &&& old(caches).department@.contains_key(key) ==> final(caches).department@ == old(
                caches,
            ).department@
        }),
        final(caches).environment@ == old(caches).environment@,
        final(caches).system@ == old(caches).system@,
{
    let key = build_department_system_prompt_cache_key(
        state,
        conversation,
        agent,
        departments,
        current_department,
        ui_language,
    );
    match department_system_prompt_cache(caches).get(key.as_str()) {
        Some(entry) => {
            let out = entry.duplicate();
            assert(caches.department@.insert(key@, out@) =~= caches.department@);
            return out;
        },
        None => {},
    }
    let snapshot = build_department_system_prompt_snapshot_uncached(
        inputs.department_prompt_block.clone(),
        strings_of_slice(inputs.department_tool_rule_blocks.as_slice()),
        inputs.rebuilt_at.as_str(),
    );
    department_system_prompt_cache(caches).insert(key, snapshot.duplicate());
    snapshot
}

/// The conversation-environment part of the system prompt: what the cache holds under the
/// request's key, or else a snapshot built at `rebuilt_at`, which is then cached under it.
pub fn get_or_build_conversation_environment_prompt_snapshot(
    caches: &mut PromptCaches,
    state: Option<&AppState>,
    conversation: &Conversation,
    ui_language: &str,
    terminal_block: Option<&str>,
    runtime_extra_blocks: &[String],
    im_extra_blocks: &[String],
    rebuilt_at: &str,
) -> (out: ConversationEnvironmentPromptSnapshot)
    ensures
        ({
            let key = environment_cache_key(
                state,
                conversation,
                ui_language@,
                terminal_block,
                texts(runtime_extra_blocks@),
                texts(im_extra_blocks@),
            );
            &&& out@ == cached_or(
                old(caches).environment@,
                key,
                environment_snapshot(
                    conversation,
                    terminal_block,
                    texts(runtime_extra_blocks@),
                    texts(im_extra_blocks@),
                    rebuilt_at@,
                ),
            )
            &&& final(caches).environment@ == old(caches).environment@.insert(key, out@)
            &&& old(caches).environment@.contains_key(key) ==> final(caches).environment@ == old(
                caches,
            ).environment@
        }),
        final(caches).department@ == old(caches).department@,
        final(caches).system@ == old(caches).system@,
{
    let key = build_conversation_environment_prompt_cache_key(
        state,
        conversation,
        ui_language,
        terminal_block,
        runtime_extra_blocks,
        im_extra_blocks,
    );
    match conversation_environment_prompt_cache(caches).get(key.as_str()) {
        Some(entry) => {
            let out = entry.duplicate();
            assert(caches.environment@.insert(key@, out@) =~= caches.environment@);
            return out;
        },
        None => {},
    }
    let snapshot = build_conversation_environment_prompt_snapshot_uncached(
        conversation,
        terminal_block,
        runtime_extra_blocks,
        im_extra_blocks,
        rebuilt_at,
    );
    conversation_environment_prompt_cache(caches).insert(key, snapshot.duplicate());
    snapshot
}

/// Appends the trimmed text of `s` as a block unless it is blank.
fn push_lead_block(out: &mut Vec<Vec<char>>, s: &str)
    ensures
        views(final(out)@) == views(old(out)@) + lead_block(s@),
{
    let t = trim_str(s);
    let ghost before = views(out@);
    if t.len() > 0 {
        out.push(t);
        assert(views(out@) =~= before + seq![trim(s@)]);
    } else {
        assert(views(out@) =~= before + Seq::<Seq<char>>::empty());
    }
}

/// Appends the trimmed non-blank entries of `list`.
fn push_trimmed_nonblank(out: &mut Vec<Vec<char>>, list: &Vec<String>)
    ensures
        views(final(out)@) == views(old(out)@) + trimmed_nonblank(texts(list@)),
{
    let all = chars_of_all(list);
    let mut kept = trimmed_nonblank_chars(&all);
    let ghost before = views(out@);
    let ghost k = views(kept@);
    out.append(&mut kept);
    assert(views(out@) =~= before + k);
}

/// The ordered blocks of a system prompt for a request: the fixed text, the department
/// block, the tool rules (memory, department, planning, meme, preamble tool rules), the
/// user-profile memory block, the runtime blocks and the IM rule blocks, each trimmed and
/// without blank ones. The department and environment parts come from the caches, which
/// are filled on a miss.
pub fn build_system_prompt_ordered_blocks(
    caches: &mut PromptCaches,
    state: Option<&AppState>,
    conversation: &Conversation,
    agent: &AgentProfile,
    departments: &[DepartmentConfig],
    current_department: Option<&DepartmentConfig>,
    ui_language: &str,
    fixed_system_prompt_text: &str,
    user_profile_memory_block: Option<&str>,
    terminal_block: Option<&str>,
    system_preamble_blocks: &[String],
    inputs: &PromptBuildInputs,
) -> (out: Vec<String>)
    ensures
        texts(out@) == request_ordered_blocks(
            old(caches).department@,
            old(caches).environment@,
            state,
            conversation,
            agent,
            departments@,
            current_department,
            ui_language@,
            fixed_system_prompt_text@,
            user_profile_memory_block,
            terminal_block,
            system_preamble_blocks@,
            inputs,
        ),
        final(caches).department@ == department_cache_after(
            old(caches).department@,
            state,
            conversation,
            agent,
            departments@,
            current_department,
            ui_language@,
            inputs,
        ),
        final(caches).environment@ == environment_cache_after(
            old(caches).environment@,
            state,
            conversation,
            ui_language@,
            terminal_block,
            system_preamble_blocks@,
            inputs.rebuilt_at@,
        ),
        final(caches).system@ == old(caches).system@,
{
    let department_snapshot = get_or_build_department_system_prompt_snapshot(
        caches,
        state,
        conversation,
        agent,
        departments,
        current_department,
        ui_language,
        inputs,
    );
    let mut tool_rules: Vec<String> = Vec::new();
    if inputs.remember_enabled || inputs.recall_enabled {
        tool_rules.push(inputs.memory_rules.clone());
    }
    let mut dept_tools = strings_of_slice(department_snapshot.department_tool_rule_blocks.as_slice());
    tool_rules.append(&mut dept_tools);
    if inputs.plan_enabled {
        tool_rules.push(inputs.planning_rules.clone());
    }
    if inputs.meme_enabled {
        match &inputs.meme_rules {
            Some(b) => {
                let t = trim_str(b.as_str());
                tool_rules.push(string_of(t.as_slice()));
            },
            None => {},
        }
    }
    let (mut tool_extra, runtime_extra, im_extra) = split_system_preamble_blocks(
        system_preamble_blocks,
    );
    let ghost te = texts(tool_extra@);
    let ghost before = tool_rules@;
    tool_rules.append(&mut tool_extra);
    assert(texts(tool_rules@) =~= tool_rule_blocks(
        inputs,
        department_snapshot@.department_tool_rule_blocks,
        system_preamble_blocks@,
    ));
    let environment_snapshot = get_or_build_conversation_environment_prompt_snapshot(
        caches,
        state,
        conversation,
        ui_language,
        terminal_block,
        runtime_extra.as_slice(),
        im_extra.as_slice(),
        inputs.rebuilt_at.as_str(),
    );
    let mut blocks: Vec<Vec<char>> = Vec::new();
    push_lead_block(&mut blocks, fixed_system_prompt_text);
    push_lead_block(&mut blocks, department_snapshot.department_prompt_block.as_str());
    push_trimmed_nonblank(&mut blocks, &tool_rules);
    match user_profile_memory_block {
        Some(p) => push_lead_block(&mut blocks, p),
        None => {
            assert(views(blocks@) =~= views(blocks@) + Seq::<Seq<char>>::empty());
        },
    }
    push_trimmed_nonblank(&mut blocks, &environment_snapshot.runtime_blocks);
    push_trimmed_nonblank(&mut blocks, &environment_snapshot.im_rule_blocks);
    let mut out: Vec<String> = Vec::new();
    let mut i: usize = 0;
    while i < blocks.len()
        invariant
            i <= blocks@.len(),
            out@.len() == i,
            texts(out@) == views(blocks@).take(i as int),
        decreases blocks@.len() - i,
    {
        let s = string_of(blocks[i].as_slice());
        let ghost prev = out@;
        out.push(s);
        proof {
            assert forall|k: int| 0 <= k < i + 1 implies texts(out@)[k] == views(blocks@).take(
                i + 1,
            )[k] by {
                if k < i {
                    assert(out@[k] == prev[k]);
                    assert(texts(prev)[k] == views(blocks@).take(i as int)[k]);
                }
            }
        }
        i = i + 1;
        assert(texts(out@) =~= views(blocks@).take(i as int));
    }
    assert(views(blocks@).take(blocks@.len() as int) =~= views(blocks@));
    out
}

/// The system prompt for a request: the cached prompt for its ordered blocks when there is
/// one, or else the ordered blocks appended line by line, which is then cached.
pub fn finalize_system_prompt_with_manager(
    caches: &mut PromptCaches,
    state: Option<&AppState>,
    mode_label: &str,
    conversation: &Conversation,
    agent: &AgentProfile,
    departments: &[DepartmentConfig],
    current_department: Option<&DepartmentConfig>,
    ui_language: &str,
    fixed_system_prompt_text: &str,
    user_profile_memory_block: Option<&str>,
    terminal_block: Option<&str>,
    system_preamble_blocks: &[String],
    inputs: &PromptBuildInputs,
) -> (out: String)
    ensures
        out@ == request_system_entry(
            old(caches).system@,
            old(caches).department@,
            old(caches).environment@,
            state,
            mode_label@,
            conversation,
            agent,
            departments@,
            current_department,
            ui_language@,
            fixed_system_prompt_text@,
            user_profile_memory_block,
            terminal_block,
            system_preamble_blocks@,
            inputs,
        ).prompt_text,
        final(caches).system@ == old(caches).system@.insert(
            request_system_key(
                old(caches).department@,
                old(caches).environment@,
                state,
                mode_label@,
                conversation,
                agent,
                departments@,
                current_department,
                ui_language@,
                fixed_system_prompt_text@,
                user_profile_memory_block,
                terminal_block,
                system_preamble_blocks@,
                inputs,
            ),
            request_system_entry(
                old(caches).system@,
                old(caches).department@,
                old(caches).environment@,
                state,
                mode_label@,
                conversation,
                agent,
                departments@,
                current_department,
                ui_language@,
                fixed_system_prompt_text@,
                user_profile_memory_block,
                terminal_block,
                system_preamble_blocks@,
                inputs,
            ),
        ),
        final(caches).department@ == department_cache_after(
            old(caches).department@,
            state,
            conversation,
            agent,
            departments@,
            current_department,
            ui_language@,
            inputs,
        ),
        final(caches).environment@ == environment_cache_after(
            old(caches).environment@,
            state,
            conversation,
            ui_language@,
            terminal_block,
            system_preamble_blocks@,
            inputs.rebuilt_at@,
        ),
{
    let ordered = build_system_prompt_ordered_blocks(
        caches,
        state,
        conversation,
        agent,
        departments,
        current_department,
        ui_language,
        fixed_system_prompt_text,
        user_profile_memory_block,
        terminal_block,
        system_preamble_blocks,
        inputs,
    );
    let key = build_system_prompt_cache_key(state, mode_label, agent, ordered.as_slice());
    match system_prompt_cache(caches).get(key.as_str()) {
        Some(entry) => {
            let e = entry.duplicate();
            assert(caches.system@.insert(key@, e@) =~= caches.system@);
            return e.prompt_text;
        },
        None => {},
    }
    let prompt_text = build_system_prompt_text_uncached(ordered.as_slice());
    let entry = SystemPromptCacheEntry {
        prompt_text: prompt_text.clone(),
        rebuilt_at: inputs.rebuilt_at.clone(),
    };
    system_prompt_cache(caches).insert(key, entry);
    prompt_text
}

} // verus!
