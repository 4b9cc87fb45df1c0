use vstd::prelude::*;

use crate::prompt_keys::opt_trimmed;
use crate::prompt_types::{
    AgentProfile, AppState, Conversation, ConversationEnvironmentPromptSnapshot, DepartmentConfig,
    DepartmentSnapshotView, DepartmentSystemPromptSnapshot, EnvironmentSnapshotView, ResponseStyle,
    SystemPromptExtraBlockGroup, strings_of_slice,
};
use crate::text::{
    chars_blank, chars_contain, chars_of, chars_of_all, contains, is_blank, join, join_chars,
    lemma_contains_survives_trim, lemma_contains_within_trim,
    push_chars, push_str, replace_first, replace_first_chars, string_of, strings_of_views, texts,
    trim, trim_chars, trim_str, trimmed_nonblank, trimmed_nonblank_chars, views,
};

verus! {

// ---------------------------------------------------------------------------
// Specification
// ---------------------------------------------------------------------------

/// A prompt block: `content` between an opening and a closing tag named `label`.
pub open spec fn xml_block(label: Seq<char>, content: Seq<char>) -> Seq<char> {
    "<"@ + label + ">\n"@ + content + "\n</"@ + label + ">"@
}

/// How one character is written inside a prompt block.
pub open spec fn escape_char(c: char) -> Seq<char> {
    if c == '&' {
        "&amp;"@
    } else if c == '<' {
        "&lt;"@
    } else if c == '>' {
        "&gt;"@
    } else if c == '"' {
        "&quot;"@
    } else if c == '\'' {
        "&apos;"@
    } else {
        seq![c]
    }
}

/// A text with the XML special characters replaced by entities.
pub open spec fn xml_escape(s: Seq<char>) -> Seq<char>
    decreases s.len(),
{
    if s.len() == 0 {
        Seq::empty()
    } else {
        xml_escape(s.drop_last()) + escape_char(s.last())
    }
}

/// The group an extra system-prompt block belongs to, by the tags it contains.
pub open spec fn block_group(block: Seq<char>) -> SystemPromptExtraBlockGroup {
    let t = trim(block);
    if contains(t, "<remote im runtime activation>"@) {
        SystemPromptExtraBlockGroup::ImRules
    } else if contains(t, "<skill usage>"@) || contains(t, "<skill index>"@) || contains(
        t,
        "<todo guide>"@,
    ) {
        SystemPromptExtraBlockGroup::ToolRules
    } else {
        SystemPromptExtraBlockGroup::Runtime
    }
}

/// The entries of `list` that belong to group `g`, in order.
pub open spec fn in_group(list: Seq<Seq<char>>, g: SystemPromptExtraBlockGroup) -> Seq<Seq<char>>
    decreases list.len(),
{
    if list.len() == 0 {
        Seq::empty()
    } else if block_group(list.last()) == g {
        in_group(list.drop_last(), g).push(list.last())
    } else {
        in_group(list.drop_last(), g)
    }
}

/// The trimmed non-blank preamble blocks of group `g`, in order.
pub open spec fn preamble_group(blocks: Seq<String>, g: SystemPromptExtraBlockGroup) -> Seq<
    Seq<char>,
> {
    in_group(trimmed_nonblank(texts(blocks)), g)
}

/// The rules block for conversations with a remote instant-messaging contact.
pub open spec fn remote_contact_rules_block() -> Seq<char> {
    xml_block("remote im contact rules"@, REMOTE_CONTACT_RULES@)
}

/// The sections of a department snapshot: the trimmed department block (when not blank),
/// then the trimmed non-blank tool-rule blocks.
pub open spec fn department_sections(prompt_block: Seq<char>, tool_rule_blocks: Seq<Seq<char>>) -> Seq<
    Seq<char>,
> {
    (if is_blank(prompt_block) {
        Seq::empty()
    } else {
        seq![trim(prompt_block)]
    }) + trimmed_nonblank(tool_rule_blocks)
}

/// The department snapshot built from its parts at time `rebuilt_at`.
pub open spec fn department_snapshot(
    prompt_block: Seq<char>,
    tool_rule_blocks: Seq<Seq<char>>,
    rebuilt_at: Seq<char>,
) -> DepartmentSnapshotView {
    DepartmentSnapshotView {
        department_prompt_block: prompt_block,
        department_tool_rule_blocks: tool_rule_blocks,
        system_prompt_text: join(department_sections(prompt_block, tool_rule_blocks), "\n"@),
        rebuilt_at,
    }
}

/// The runtime blocks of an environment snapshot: the trimmed terminal block (when not
/// blank), then the trimmed non-blank runtime extras.
pub open spec fn environment_runtime_blocks(
    terminal_block: Option<&str>,
    runtime_extra_blocks: Seq<Seq<char>>,
) -> Seq<Seq<char>> {
    (if opt_trimmed(terminal_block).len() == 0 {
        Seq::empty()
    } else {
        seq![opt_trimmed(terminal_block)]
    }) + trimmed_nonblank(runtime_extra_blocks)
}

/// The instant-messaging rule blocks of an environment snapshot: the remote-contact rules
/// (for a remote contact), then the trimmed non-blank IM extras.
pub open spec fn environment_im_blocks(
    conversation: &Conversation,
    im_extra_blocks: Seq<Seq<char>>,
) -> Seq<Seq<char>> {
    (if conversation.remote_im_contact {
        seq![remote_contact_rules_block()]
    } else {
        Seq::empty()
    }) + trimmed_nonblank(im_extra_blocks)
}

/// The environment snapshot built at time `rebuilt_at`.
pub open spec fn environment_snapshot(
    conversation: &Conversation,
    terminal_block: Option<&str>,
    runtime_extra_blocks: Seq<Seq<char>>,
    im_extra_blocks: Seq<Seq<char>>,
    rebuilt_at: Seq<char>,
) -> EnvironmentSnapshotView {
    let runtime = environment_runtime_blocks(terminal_block, runtime_extra_blocks);
    let im = environment_im_blocks(conversation, im_extra_blocks);
    EnvironmentSnapshotView {
        runtime_blocks: runtime,
        im_rule_blocks: im,
        system_prompt_text: join(runtime + im, "\n"@),
        rebuilt_at,
    }
}

/// `target` with `block` appended as a line: nothing changes for an absent or blank block;
/// otherwise a line break is added to a non-blank target that does not end with one, then
/// the trimmed block and a line break.
pub open spec fn append_block(target: Seq<char>, block: Option<Seq<char>>) -> Seq<char> {
    match block {
        Some(b) => if is_blank(b) {
            target
        } else {
            let base = if !is_blank(target) && !(target.len() > 0 && target.last() == '\n') {
                target.push('\n')
            } else {
                target
            };
            base + trim(b) + "\n"@
        },
        None => target,
    }
}

/// The system prompt text that appending each block in turn to an empty text gives.
pub open spec fn prompt_text(blocks: Seq<Seq<char>>) -> Seq<char>
    decreases blocks.len(),
{
    if blocks.len() == 0 {
        Seq::empty()
    } else {
        append_block(prompt_text(blocks.drop_last()), Some(blocks.last()))
    }
}

/// Each entry followed by a line break, all concatenated.
pub open spec fn lines(list: Seq<Seq<char>>) -> Seq<char>
    decreases list.len(),
{
    if list.len() == 0 {
        Seq::empty()
    } else {
        lines(list.drop_last()) + list.last() + "\n"@
    }
}

/// The persona settings block.
pub open spec fn persona_block(agent: &AgentProfile) -> Seq<char> {
    xml_block("persona settings"@, trim(agent.system_prompt@))
}

/// The conversation style block.
pub open spec fn style_block(style: &ResponseStyle) -> Seq<char> {
    xml_block("conversation style"@, "当前风格："@ + style.name@ + "\n"@ + style.prompt@)
}

/// How the user's introduction is shown (a placeholder when blank).
pub open spec fn intro_display(intro: Seq<char>) -> Seq<char> {
    if is_blank(intro) {
        "未提供"@
    } else {
        trim(intro)
    }
}

/// The line that names the assistant and the user.
pub open spec fn role_identity(agent_name: Seq<char>, user_name: Seq<char>) -> Seq<char> {
    replace_first(
        replace_first(ROLE_IDENTITY_LINE@, "{}"@, xml_escape(agent_name)),
        "{}"@,
        xml_escape(user_name),
    )
}

/// The core system prompt: the highest instruction, the persona, (for a conversation with a
/// user) the user's settings, the role constraints, the style and the language settings,
/// as blocks joined with line breaks.
pub open spec fn core_prompt(
    agent: &AgentProfile,
    user_profile: Option<(&str, &str)>,
    style: &ResponseStyle,
    date_timezone_line: Seq<char>,
    highest_instruction: Seq<char>,
) -> Seq<char> {
    match user_profile {
        Some((user_name, user_intro)) => join(
            seq![
                highest_instruction,
                persona_block(agent),
                xml_block(
                    "admin user settings"@,
                    "用户昵称"@ + "："@ + xml_escape(user_name@) + "\n"@ + "用户自我介绍"@ + "："@
                        + xml_escape(intro_display(user_intro@)),
                ),
                xml_block(
                    "role constraints"@,
                    role_identity(agent.name@, user_name@) + "\n"@ + ROLE_CONFUSION_LINE@,
                ),
                style_block(style),
                xml_block(
                    "language settings"@,
                    LANGUAGE_INSTRUCTION@ + "\n"@ + LANGUAGE_FOLLOW_USER_LINE@ + "\n"@
                        + date_timezone_line,
                ),
            ],
            "\n"@,
        ),
        None => join(
            seq![
                highest_instruction,
                persona_block(agent),
                xml_block(
                    "role constraints"@,
                    DELEGATE_ROLE_LINE@ + "\n"@ + DELEGATE_SCOPE_LINE@,
                ),
                style_block(style),
                xml_block("language settings"@, LANGUAGE_INSTRUCTION@ + "\n"@ + date_timezone_line),
            ],
            "\n"@,
        ),
    }
}

// ---------------------------------------------------------------------------
// Fixed prompt texts
// ---------------------------------------------------------------------------

/// The rules for talking to a remote instant-messaging contact.
pub const REMOTE_CONTACT_RULES: &'static str = "联系人是特殊用户，不是当前聊天窗口中的直接用户。\n他们的消息来自远程接口接入，应视为独立的外部用户。\n不要把联系人和当前用户混为一谈，也不要混淆回复目标。\n如果需要回复远程联系人，必须调用 `remote_im_send`。";

/// The template of the line that names the assistant and the user.
pub const ROLE_IDENTITY_LINE: &'static str = "- 你是“{}”，用户是“{}”。";

/// The line that keeps the assistant from confusing itself with the user.
pub const ROLE_CONFUSION_LINE: &'static str = "- 不要把自己当作用户，不要混淆双方身份。";

/// The line that lets the user choose the answer language.
pub const LANGUAGE_FOLLOW_USER_LINE: &'static str = "- 若用户明确指定回答语言，以用户指定为准。";

/// The default answer language.
pub const LANGUAGE_INSTRUCTION: &'static str = "默认使用中文回答。";

/// The role line of a delegated thread.
pub const DELEGATE_ROLE_LINE: &'static str = "- 这是一条委托线程。此线程不存在默认用户人格。";

/// The scope line of a delegated thread.
pub const DELEGATE_SCOPE_LINE: &'static str = "- 只依据本轮委托任务块与本线程历史处理工作，不要自行补充用户设定、昵称或主会话背景。";

// ---------------------------------------------------------------------------
// Lemmas
// ---------------------------------------------------------------------------

proof fn lemma_in_group_push(list: Seq<Seq<char>>, x: Seq<char>, g: SystemPromptExtraBlockGroup)
    ensures
        in_group(list.push(x), g) == if block_group(x) == g {
            in_group(list, g).push(x)
        } else {
            in_group(list, g)
        },
{
    assert(list.push(x).drop_last() =~= list);
}

/// Grouping loses no block and invents none: the three groups together hold as many
/// blocks as the list, and every block of a group is a block of the list classified into
/// that group.
pub proof fn lemma_in_group_partition(list: Seq<Seq<char>>)
    ensures
        in_group(list, SystemPromptExtraBlockGroup::ToolRules).len() + in_group(
            list,
            SystemPromptExtraBlockGroup::Runtime,
        ).len() + in_group(list, SystemPromptExtraBlockGroup::ImRules).len() == list.len(),
        forall|g: SystemPromptExtraBlockGroup, i: int|
            0 <= i < in_group(list, g).len() ==> block_group(#[trigger] in_group(list, g)[i]) == g
                && list.contains(in_group(list, g)[i]),
    decreases list.len(),
{
    if list.len() > 0 {
        let rest = list.drop_last();
        lemma_in_group_partition(rest);
        assert(list =~= rest.push(list.last()));
        assert forall|g: SystemPromptExtraBlockGroup, i: int|
            0 <= i < in_group(list, g).len() implies block_group(#[trigger] in_group(list, g)[i])
            == g && list.contains(in_group(list, g)[i]) by {
            if i < in_group(rest, g).len() {
                let x = in_group(rest, g)[i];
                assert(in_group(list, g)[i] == x);
                let j = choose|j: int| 0 <= j < rest.len() && rest[j] == x;
                assert(list[j] == x);
            } else {
                assert(in_group(list, g)[i] == list.last());
                assert(list[list.len() - 1] == list.last());
            }
        }
    }
}

/// Splitting the preamble loses no block and invents none: the tool-rule, runtime and IM
/// groups together hold as many blocks as there are trimmed non-blank preamble blocks, and
/// every block of a group is one of them, classified into that group.
pub proof fn lemma_preamble_groups_partition(blocks: Seq<String>)
    ensures
        preamble_group(blocks, SystemPromptExtraBlockGroup::ToolRules).len() + preamble_group(
            blocks,
            SystemPromptExtraBlockGroup::Runtime,
        ).len() + preamble_group(blocks, SystemPromptExtraBlockGroup::ImRules).len()
            == trimmed_nonblank(texts(blocks)).len(),
        forall|g: SystemPromptExtraBlockGroup, i: int|
            0 <= i < preamble_group(blocks, g).len() ==> block_group(
                #[trigger] preamble_group(blocks, g)[i],
            ) == g && trimmed_nonblank(texts(blocks)).contains(preamble_group(blocks, g)[i]),
{
    lemma_in_group_partition(trimmed_nonblank(texts(blocks)));
}

/// A block holding the remote IM activation tag is an IM rule block; otherwise a block
/// holding a skill usage, skill index or todo guide tag is a tool rule block; any other block
/// is a runtime block.
pub proof fn lemma_block_groups(block: Seq<char>)
    ensures
        contains(block, "<remote im runtime activation>"@) ==> block_group(block)
            == SystemPromptExtraBlockGroup::ImRules,
        !contains(block, "<remote im runtime activation>"@) && (contains(block, "<skill usage>"@)
            || contains(block, "<skill index>"@) || contains(block, "<todo guide>"@))
            ==> block_group(block) == SystemPromptExtraBlockGroup::ToolRules,
        !contains(block, "<remote im runtime activation>"@) && !contains(block, "<skill usage>"@)
            && !contains(block, "<skill index>"@) && !contains(block, "<todo guide>"@)
            ==> block_group(block) == SystemPromptExtraBlockGroup::Runtime,
{
    reveal_strlit("<remote im runtime activation>");
    reveal_strlit("<skill usage>");
    reveal_strlit("<skill index>");
    reveal_strlit("<todo guide>");
    let t = trim(block);
    if contains(block, "<remote im runtime activation>"@) {
        lemma_contains_survives_trim(block, "<remote im runtime activation>"@);
    }
    if contains(block, "<skill usage>"@) {
        lemma_contains_survives_trim(block, "<skill usage>"@);
    }
    if contains(block, "<skill index>"@) {
        lemma_contains_survives_trim(block, "<skill index>"@);
    }
    if contains(block, "<todo guide>"@) {
        lemma_contains_survives_trim(block, "<todo guide>"@);
    }
    lemma_contains_within_trim(block, "<remote im runtime activation>"@);
    lemma_contains_within_trim(block, "<skill usage>"@);
    lemma_contains_within_trim(block, "<skill index>"@);
    lemma_contains_within_trim(block, "<todo guide>"@);
}

/// A conversation with a remote contact gets the remote contact rules as its first IM rule
/// block, ahead of the same IM blocks a conversation without one gets; its runtime blocks
/// are the same.
pub proof fn lemma_remote_contact_rules_first(
    remote: &Conversation,
    local: &Conversation,
    terminal_block: Option<&str>,
    runtime_extra_blocks: Seq<Seq<char>>,
    im_extra_blocks: Seq<Seq<char>>,
    rebuilt_at: Seq<char>,
)
    requires
        remote.remote_im_contact,
        !local.remote_im_contact,
    ensures
        ({
            let r = environment_snapshot(
                remote,
                terminal_block,
                runtime_extra_blocks,
                im_extra_blocks,
                rebuilt_at,
            );
            let l = environment_snapshot(
                local,
                terminal_block,
                runtime_extra_blocks,
                im_extra_blocks,
                rebuilt_at,
            );
            &&& r.im_rule_blocks == seq![
                xml_block("remote im contact rules"@, REMOTE_CONTACT_RULES@),
            ] + l.im_rule_blocks
            &&& r.runtime_blocks == l.runtime_blocks
        }),
{
    let l = environment_snapshot(local, terminal_block, runtime_extra_blocks, im_extra_blocks, rebuilt_at);
    assert(l.im_rule_blocks =~= trimmed_nonblank(im_extra_blocks));
}

/// Escaped text holds no `<`, `>`, `"` or `'`: every such character of the input is
/// written as an entity.
pub proof fn lemma_xml_escape_has_no_markup(s: Seq<char>)
    ensures
        forall|i: int|
            0 <= i < xml_escape(s).len() ==> {
                let c = #[trigger] xml_escape(s)[i];
                c != '<' && c != '>' && c != '"' && c != '\''
            },
    decreases s.len(),
{
    if s.len() > 0 {
        lemma_xml_escape_has_no_markup(s.drop_last());
        reveal_strlit("&amp;");
        reveal_strlit("&lt;");
        reveal_strlit("&gt;");
        reveal_strlit("&quot;");
        reveal_strlit("&apos;");
        let a = xml_escape(s.drop_last());
        let e = escape_char(s.last());
        assert forall|i: int| 0 <= i < xml_escape(s).len() implies {
            let c = #[trigger] xml_escape(s)[i];
            c != '<' && c != '>' && c != '"' && c != '\''
        } by {
            if i >= a.len() {
                assert(xml_escape(s)[i] == e[i - a.len()]);
            } else {
                assert(xml_escape(s)[i] == a[i]);
            }
        }
    }
}

/// Text without `&`, `<`, `>`, `"` and `'` is left as it is by escaping.
pub proof fn lemma_xml_escape_plain(s: Seq<char>)
    requires
        forall|i: int|
            0 <= i < s.len() ==> {
                let c = #[trigger] s[i];
                c != '&' && c != '<' && c != '>' && c != '"' && c != '\''
            },
    ensures
        xml_escape(s) == s,
    decreases s.len(),
{
    if s.len() > 0 {
        lemma_xml_escape_plain(s.drop_last());
        assert(s.last() == s[s.len() - 1]);
        assert(s =~= s.drop_last() + seq![s.last()]);
    }
}

/// Appending a block to the prompt text: an absent or blank block changes nothing; any other
/// block keeps the text before it, adds one line break first when the text is not blank and
/// does not end with one, and ends the text with the trimmed block and a line break.
pub proof fn lemma_append_block_keeps_lines(target: Seq<char>, b: Seq<char>)
    ensures
        !is_blank(b) ==> {
            let out = append_block(target, Some(b));
            let sep: int = if !is_blank(target) && !(target.len() > 0 && target.last() == '\n') {
                1
            } else {
                0
            };
            &&& out.len() == target.len() + sep + trim(b).len() + 1
            &&& out.take(target.len() as int) == target
            &&& sep == 1 ==> out[target.len() as int] == '\n'
            &&& out.skip(target.len() + sep) == trim(b).push('\n')
        },
        is_blank(b) ==> append_block(target, Some(b)) == target,
        append_block(target, None) == target,
{
    reveal_strlit("\n");
    if !is_blank(b) {
        let out = append_block(target, Some(b));
        let sep: int = if !is_blank(target) && !(target.len() > 0 && target.last() == '\n') {
            1
        } else {
            0
        };
        assert(out.take(target.len() as int) =~= target);
        assert(out.skip(target.len() + sep) =~= trim(b).push('\n'));
    }
}

proof fn lemma_xml_escape_push(s: Seq<char>, c: char)
    ensures
        xml_escape(s.push(c)) == xml_escape(s) + escape_char(c),
{
    assert(s.push(c).drop_last() =~= s);
}

proof fn lemma_prompt_text_push(blocks: Seq<Seq<char>>, b: Seq<char>)
    ensures
        prompt_text(blocks.push(b)) == append_block(prompt_text(blocks), Some(b)),
{
    assert(blocks.push(b).drop_last() =~= blocks);
}

proof fn lemma_lines_push(list: Seq<Seq<char>>, x: Seq<char>)
    ensures
        lines(list.push(x)) == lines(list) + x + "\n"@,
{
    assert(list.push(x).drop_last() =~= list);
}

/// The system prompt text is the trimmed non-blank blocks, each on a line of its own.
pub proof fn lemma_prompt_text_is_lines(blocks: Seq<Seq<char>>)
    ensures
        prompt_text(blocks) == lines(trimmed_nonblank(blocks)),
        prompt_text(blocks).len() == 0 || prompt_text(blocks).last() == '\n',
    decreases blocks.len(),
{
    reveal_strlit("\n");
    if blocks.len() > 0 {
        let rest = blocks.drop_last();
        lemma_prompt_text_is_lines(rest);
        assert(rest.push(blocks.last()) =~= blocks);
        crate::text::lemma_trimmed_nonblank_push(rest, blocks.last());
        if !is_blank(blocks.last()) {
            lemma_lines_push(trimmed_nonblank(rest), trim(blocks.last()));
        }
    }
}

// ---------------------------------------------------------------------------
// Executable prompt blocks
// ---------------------------------------------------------------------------

fn xml_block_chars(label: &str, content: &[char]) -> (out: Vec<char>)
    ensures
        out@ == xml_block(label@, content@),
{
    let mut out: Vec<char> = Vec::new();
    push_str(&mut out, "<");
    push_str(&mut out, label);
    push_str(&mut out, ">\n");
    push_chars(&mut out, content);
    push_str(&mut out, "\n</");
    push_str(&mut out, label);
    push_str(&mut out, ">");
    out
}

/// A prompt block: `content` between an opening and a closing tag named `label`.
pub fn prompt_xml_block(label: &str, content: &str) -> (out: String)
    ensures
        out@ == xml_block(label@, content@),
{
    let c = chars_of(content);
    let b = xml_block_chars(label, c.as_slice());
    string_of(b.as_slice())
}

fn xml_escape_chars(s: &[char]) -> (out: Vec<char>)
    ensures
        out@ == xml_escape(s@),
{
    let mut out: Vec<char> = Vec::new();
    let mut i: usize = 0;
    while i < s.len()
        invariant
            i <= s@.len(),
            out@ == xml_escape(s@.take(i as int)),
        decreases s@.len() - i,
    {
        let c = s[i];
        proof {
            lemma_xml_escape_push(s@.take(i as int), c);
            assert(s@.take(i as int).push(c) =~= s@.take(i + 1));
        }
        if c == '&' {
            push_str(&mut out, "&amp;");
        } else if c == '<' {
            push_str(&mut out, "&lt;");
        } else if c == '>' {
            push_str(&mut out, "&gt;");
        } else if c == '"' {
            push_str(&mut out, "&quot;");
        } else if c == '\'' {
            push_str(&mut out, "&apos;");
        } else {
            out.push(c);
            assert(out@ =~= xml_escape(s@.take(i as int)) + seq![c]);
        }
        i = i + 1;
    }
    assert(s@.take(s@.len() as int) =~= s@);
    out
}

/// A text with `&`, `<`, `>`, `"` and `'` replaced by their XML entities.
pub fn xml_escape_prompt(s: &str) -> (out: String)
    ensures
        out@ == xml_escape(s@),
{
    let c = chars_of(s);
    let e = xml_escape_chars(c.as_slice());
    string_of(e.as_slice())
}

/// The group of an extra system-prompt block: IM rules when it holds the remote IM runtime
/// activation tag, tool rules when it holds a skill or todo tag, runtime otherwise.
pub fn classify_system_prompt_extra_block(block: &str) -> (g: SystemPromptExtraBlockGroup)
    ensures
        g == block_group(block@),
{
    let t = trim_str(block);
    let im = chars_of("<remote im runtime activation>");
    if chars_contain(t.as_slice(), im.as_slice()) {
        return SystemPromptExtraBlockGroup::ImRules;
    }
    let usage = chars_of("<skill usage>");
    let index = chars_of("<skill index>");
    let todo = chars_of("<todo guide>");
    if chars_contain(t.as_slice(), usage.as_slice()) || chars_contain(
        t.as_slice(),
        index.as_slice(),
    ) || chars_contain(t.as_slice(), todo.as_slice()) {
        return SystemPromptExtraBlockGroup::ToolRules;
    }
    SystemPromptExtraBlockGroup::Runtime
}

/// The trimmed non-blank preamble blocks, split into tool-rule, runtime and IM-rule
/// blocks, each in the order given.
pub fn split_system_preamble_blocks(system_preamble_blocks: &[String]) -> (out: (
    Vec<String>,
    Vec<String>,
    Vec<String>,
))
    ensures
        texts(out.0@) == preamble_group(system_preamble_blocks@, SystemPromptExtraBlockGroup::ToolRules),
        texts(out.1@) == preamble_group(system_preamble_blocks@, SystemPromptExtraBlockGroup::Runtime),
        texts(out.2@) == preamble_group(system_preamble_blocks@, SystemPromptExtraBlockGroup::ImRules),
{
    let blocks = strings_of_slice(system_preamble_blocks);
    let all = chars_of_all(&blocks);
    let kept = trimmed_nonblank_chars(&all);
    let ghost k = views(kept@);
    let mut tools: Vec<String> = Vec::new();
    let mut runtime: Vec<String> = Vec::new();
    let mut im: Vec<String> = Vec::new();
    let mut i: usize = 0;
    while i < kept.len()
        invariant
            i <= kept@.len(),
            k == views(kept@),
            k == trimmed_nonblank(texts(system_preamble_blocks@)),
            texts(tools@) == in_group(k.take(i as int), SystemPromptExtraBlockGroup::ToolRules),
            texts(runtime@) == in_group(k.take(i as int), SystemPromptExtraBlockGroup::Runtime),
            texts(im@) == in_group(k.take(i as int), SystemPromptExtraBlockGroup::ImRules),
        decreases kept@.len() - i,
    {
        let s = string_of(kept[i].as_slice());
        let g = classify_system_prompt_extra_block(s.as_str());
        proof {
            assert(k[i as int] == s@);
            assert(k.take(i as int).push(k[i as int]) =~= k.take(i + 1));
            lemma_in_group_push(k.take(i as int), s@, SystemPromptExtraBlockGroup::ToolRules);
            lemma_in_group_push(k.take(i as int), s@, SystemPromptExtraBlockGroup::Runtime);
            lemma_in_group_push(k.take(i as int), s@, SystemPromptExtraBlockGroup::ImRules);
        }
        match g {
            SystemPromptExtraBlockGroup::ToolRules => {
                tools.push(s);
                assert(texts(tools@) =~= in_group(
                    k.take(i + 1),
                    SystemPromptExtraBlockGroup::ToolRules,
                ));
            },
            SystemPromptExtraBlockGroup::Runtime => {
                runtime.push(s);
                assert(texts(runtime@) =~= in_group(
                    k.take(i + 1),
                    SystemPromptExtraBlockGroup::Runtime,
                ));
            },
            SystemPromptExtraBlockGroup::ImRules => {
                im.push(s);
                assert(texts(im@) =~= in_group(
                    k.take(i + 1),
                    SystemPromptExtraBlockGroup::ImRules,
                ));
            },
        }
        i = i + 1;
    }
    assert(k.take(kept@.len() as int) =~= k);
    (tools, runtime, im)
}


/// The department part of the system prompt, built from the department prompt block and
/// the tool-rule blocks at time `rebuilt_at`: its text is the trimmed non-blank sections
/// joined with line breaks.
pub fn build_department_system_prompt_snapshot_uncached(
    department_prompt_block: String,
    department_tool_rule_blocks: Vec<String>,
    rebuilt_at: &str,
) -> (out: DepartmentSystemPromptSnapshot)
    ensures
        out@ == department_snapshot(
            department_prompt_block@,
            texts(department_tool_rule_blocks@),
            rebuilt_at@,
        ),
{
    let mut sections: Vec<Vec<char>> = Vec::new();
    let pb = chars_of(department_prompt_block.as_str());
    if !chars_blank(pb.as_slice()) {
        let t = trim_chars(pb.as_slice());
        sections.push(t);
    }
    let all = chars_of_all(&department_tool_rule_blocks);
    let mut kept = trimmed_nonblank_chars(&all);
    let ghost first = views(sections@);
    sections.append(&mut kept);
    assert(views(sections@) =~= department_sections(
        department_prompt_block@,
        texts(department_tool_rule_blocks@),
    ));
    let sep = chars_of("\n");
    let text = join_chars(&sections, sep.as_slice());
    DepartmentSystemPromptSnapshot {
        department_prompt_block,
        department_tool_rule_blocks,
        system_prompt_text: string_of(text.as_slice()),
        rebuilt_at: String::from_str(rebuilt_at),
    }
}

/// The conversation-environment part of the system prompt at time `rebuilt_at`: the
/// runtime blocks (terminal block, then runtime extras), the IM rule blocks (remote-contact
/// rules, then IM extras), and their text joined with line breaks.
pub fn build_conversation_environment_prompt_snapshot_uncached(
    conversation: &Conversation,
    terminal_block: Option<&str>,
    runtime_extra_blocks: &[String],
    im_extra_blocks: &[String],
    rebuilt_at: &str,
) -> (out: ConversationEnvironmentPromptSnapshot)
    ensures
        out@ == environment_snapshot(
            conversation,
            terminal_block,
            texts(runtime_extra_blocks@),
            texts(im_extra_blocks@),
            rebuilt_at@,
        ),
{
    let mut runtime: Vec<Vec<char>> = Vec::new();
    match terminal_block {
        Some(t) => {
            let tt = trim_str(t);
            if tt.len() > 0 {
                runtime.push(tt);
            }
        },
        None => {},
    }
    let runtime_strings = strings_of_slice(runtime_extra_blocks);
    let runtime_all = chars_of_all(&runtime_strings);
    let mut runtime_kept = trimmed_nonblank_chars(&runtime_all);
    runtime.append(&mut runtime_kept);
    assert(views(runtime@) =~= environment_runtime_blocks(terminal_block, texts(runtime_extra_blocks@)));

    let mut im: Vec<Vec<char>> = Vec::new();
    if conversation.remote_im_contact {
        let rules = chars_of(REMOTE_CONTACT_RULES);
        let block = xml_block_chars("remote im contact rules", rules.as_slice());
        im.push(block);
    }
    let im_strings = strings_of_slice(im_extra_blocks);
    let im_all = chars_of_all(&im_strings);
    let mut im_kept = trimmed_nonblank_chars(&im_all);
    im.append(&mut im_kept);
    assert(views(im@) =~= environment_im_blocks(conversation, texts(im_extra_blocks@)));

    let runtime_blocks = strings_of_views(&runtime);
    let im_rule_blocks = strings_of_views(&im);
    let mut sections: Vec<Vec<char>> = Vec::new();
    let ghost rv = views(runtime@);
    let ghost iv = views(im@);
    sections.append(&mut runtime);
    sections.append(&mut im);
    assert(views(sections@) =~= rv + iv);
    let sep = chars_of("\n");
    let text = join_chars(&sections, sep.as_slice());
    ConversationEnvironmentPromptSnapshot {
        runtime_blocks,
        im_rule_blocks,
        system_prompt_text: string_of(text.as_slice()),
        rebuilt_at: String::from_str(rebuilt_at),
    }
}

/// Whether a string is blank once trimmed.
fn string_blank(s: &str) -> (b: bool)
    ensures
        b == is_blank(s@),
{
    let c = chars_of(s);
    chars_blank(c.as_slice())
}

/// Appends `block` to `target` as a line of its own, trimmed; absent or blank blocks leave
/// `target` unchanged.
pub fn append_system_prompt_block(target: &mut String, block: Option<&str>)
    ensures
        final(target)@ == append_block(
            old(target)@,
            match block {
                Some(b) => Some(b@),
                None => None,
            },
        ),
{
    let b = match block {
        Some(b) => b,
        None => {
            return ;
        },
    };
    let trimmed = trim_str(b);
    if trimmed.len() == 0 {
        return ;
    }
    let cur = chars_of(target.as_str());
    let mut out: Vec<char> = Vec::new();
    push_chars(&mut out, cur.as_slice());
    if !chars_blank(cur.as_slice()) {
        let n = cur.len();
        if !(n > 0 && cur[n - 1] == '\n') {
            out.push('\n');
        }
    }
    push_chars(&mut out, trimmed.as_slice());
    push_str(&mut out, "\n");
    *target = string_of(out.as_slice());
}

/// The system prompt text: each block appended in turn to an empty text.
pub fn build_system_prompt_text_uncached(ordered_blocks: &[String]) -> (out: String)
    ensures
        out@ == prompt_text(texts(ordered_blocks@)),
        out@ == lines(trimmed_nonblank(texts(ordered_blocks@))),
{
    let ghost bs = texts(ordered_blocks@);
    let mut prompt = String::new();
    let mut i: usize = 0;
    while i < ordered_blocks.len()
        invariant
            i <= ordered_blocks@.len(),
            bs == texts(ordered_blocks@),
            prompt@ == prompt_text(bs.take(i as int)),
        decreases ordered_blocks@.len() - i,
    {
        proof {
            lemma_prompt_text_push(bs.take(i as int), bs[i as int]);
            assert(bs.take(i as int).push(bs[i as int]) =~= bs.take(i + 1));
        }
        append_system_prompt_block(&mut prompt, Some(ordered_blocks[i].as_str()));
        i = i + 1;
    }
    assert(bs.take(ordered_blocks@.len() as int) =~= bs);
    proof {
        lemma_prompt_text_is_lines(bs);
    }
    prompt
}

/// The core system prompt: the highest instruction, the agent's persona, (when there is a
/// user) the user's nickname and introduction, the role constraints, the response style and
/// the language settings, joined with line breaks. Without a user profile the thread is a
/// delegated one and the role constraints say so.
pub fn build_core_system_prompt_text(
    _conversation: &Conversation,
    agent: &AgentProfile,
    _departments: &[DepartmentConfig],
    user_profile: Option<(&str, &str)>,
    response_style: &ResponseStyle,
    date_timezone_line: &str,
    highest_instruction_markdown: &str,
    _state: Option<&AppState>,
) -> (out: String)
    ensures
        out@ == core_prompt(
            agent,
            user_profile,
            response_style,
            date_timezone_line@,
            highest_instruction_markdown@,
        ),
{
    let highest = chars_of(highest_instruction_markdown);
    let persona_content = trim_str(agent.system_prompt.as_str());
    let persona = xml_block_chars("persona settings", persona_content.as_slice());
    let mut style_content: Vec<char> = Vec::new();
    push_str(&mut style_content, "当前风格：");
    push_str(&mut style_content, response_style.name.as_str());
    push_str(&mut style_content, "\n");
    push_str(&mut style_content, response_style.prompt.as_str());
    let style = xml_block_chars("conversation style", style_content.as_slice());
    let mut parts: Vec<Vec<char>> = Vec::new();
    match user_profile {
        Some((user_name, user_intro)) => {
            let intro = if string_blank(user_intro) {
                chars_of("未提供")
            } else {
                trim_str(user_intro)
            };
            let name_c = chars_of(user_name);
            let name_esc = xml_escape_chars(name_c.as_slice());
            let intro_esc = xml_escape_chars(intro.as_slice());
            let agent_c = chars_of(agent.name.as_str());
            let agent_esc = xml_escape_chars(agent_c.as_slice());
            let template = chars_of(ROLE_IDENTITY_LINE);
            let placeholder = chars_of("{}");
            let once = replace_first_chars(
                template.as_slice(),
                placeholder.as_slice(),
                agent_esc.as_slice(),
            );
            let identity = replace_first_chars(
                once.as_slice(),
                placeholder.as_slice(),
                name_esc.as_slice(),
            );
            let mut user_content: Vec<char> = Vec::new();
            push_str(&mut user_content, "用户昵称");
            push_str(&mut user_content, "：");
            push_chars(&mut user_content, name_esc.as_slice());
            push_str(&mut user_content, "\n");
            push_str(&mut user_content, "用户自我介绍");
            push_str(&mut user_content, "：");
            push_chars(&mut user_content, intro_esc.as_slice());
            let user_block = xml_block_chars("admin user settings", user_content.as_slice());
            let mut role_content: Vec<char> = Vec::new();
            push_chars(&mut role_content, identity.as_slice());
            push_str(&mut role_content, "\n");
            push_str(&mut role_content, ROLE_CONFUSION_LINE);
            let role_block = xml_block_chars("role constraints", role_content.as_slice());
            let mut lang_content: Vec<char> = Vec::new();
            push_str(&mut lang_content, LANGUAGE_INSTRUCTION);
            push_str(&mut lang_content, "\n");
            push_str(&mut lang_content, LANGUAGE_FOLLOW_USER_LINE);
            push_str(&mut lang_content, "\n");
            push_str(&mut lang_content, date_timezone_line);
            let lang_block = xml_block_chars("language settings", lang_content.as_slice());
            parts.push(highest);
            parts.push(persona);
            parts.push(user_block);
            parts.push(role_block);
            parts.push(style);
            parts.push(lang_block);
            assert(views(parts@) =~= seq![
                highest_instruction_markdown@,
                persona_block(agent),
                xml_block(
                    "admin user settings"@,
                    "用户昵称"@ + "："@ + xml_escape(user_name@) + "\n"@ + "用户自我介绍"@ + "："@
                        + xml_escape(intro_display(user_intro@)),
                ),
                xml_block(
                    "role constraints"@,
                    role_identity(agent.name@, user_name@) + "\n"@ + ROLE_CONFUSION_LINE@,
                ),
                style_block(response_style),
                xml_block(
                    "language settings"@,
                    LANGUAGE_INSTRUCTION@ + "\n"@ + LANGUAGE_FOLLOW_USER_LINE@ + "\n"@
                        + date_timezone_line@,
                ),
            ]);
        },
        None => {
            let mut role_content: Vec<char> = Vec::new();
            push_str(&mut role_content, DELEGATE_ROLE_LINE);
            push_str(&mut role_content, "\n");
            push_str(&mut role_content, DELEGATE_SCOPE_LINE);
            let role_block = xml_block_chars("role constraints", role_content.as_slice());
            let mut lang_content: Vec<char> = Vec::new();
            push_str(&mut lang_content, LANGUAGE_INSTRUCTION);
            push_str(&mut lang_content, "\n");
            push_str(&mut lang_content, date_timezone_line);
            let lang_block = xml_block_chars("language settings", lang_content.as_slice());
            parts.push(highest);
            parts.push(persona);
            parts.push(role_block);
            parts.push(style);
            parts.push(lang_block);
            assert(views(parts@) =~= seq![
                highest_instruction_markdown@,
                persona_block(agent),
                xml_block(
                    "role constraints"@,
                    DELEGATE_ROLE_LINE@ + "\n"@ + DELEGATE_SCOPE_LINE@,
                ),
                style_block(response_style),
                xml_block(
                    "language settings"@,
                    LANGUAGE_INSTRUCTION@ + "\n"@ + date_timezone_line@,
                ),
            ]);
        },
    }
    let sep = chars_of("\n");
    let text = join_chars(&parts, sep.as_slice());
    string_of(text.as_slice())
}

} // verus!
