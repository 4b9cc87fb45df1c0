use vstd::prelude::*;

use crate::text::{
    ascii_lower, ascii_lowercase, ascii_lowercase_chars, char_is_space, chars_contain, chars_eq,
    chars_have, chars_of, contains, has_char, is_space, lemma_trim_ends, lemma_trim_fixed,
    occurs_at,
    push_chars, string_of, strings_of_views, sub_chars, trim, trim_chars, trim_str, views,
};
use crate::windows_path::{win_is_absolute, win_push, windows_is_absolute, windows_push};
use vstd::hash_set::StringHashSet;

verus! {

/// The path conventions of the platform the commands run on.
#[derive(PartialEq, Eq, Structural, Clone, Copy, Debug)]
pub enum HostPlatform {
    Unix,
    Windows,
}

/// A path that a terminal command refers to, and whether the command wrote it as an
/// absolute path.
pub struct TerminalCommandPathCandidate {
    pub path: String,
    pub is_absolute: bool,
}

/// The contents of a [`TerminalCommandPathCandidate`].
pub struct CandidateView {
    pub path: Seq<char>,
    pub is_absolute: bool,
}

impl View for TerminalCommandPathCandidate {
    type V = CandidateView;

    open spec fn view(&self) -> CandidateView {
        CandidateView { path: self.path@, is_absolute: self.is_absolute }
    }
}

/// The state of the command lexer between two characters.
#[derive(PartialEq, Eq, Structural, Clone, Copy)]
pub enum LexMode {
    Plain,
    SingleQuoted,
    DoubleQuoted,
}

// ---------------------------------------------------------------------------
// Specification: lexing a command line
// ---------------------------------------------------------------------------

/// Characters that start a shell operator.
pub open spec fn is_operator_char(c: char) -> bool {
    c == '|' || c == '&' || c == ';' || c == '<' || c == '>'
}

/// The number of characters of the operator that starts at `i`: `||`, `&&`, `>>` and `>&`
/// take two, every other operator one.
pub open spec fn operator_len(s: Seq<char>, i: int) -> int {
    if i + 1 < s.len() && (((s[i] == '|' || s[i] == '&' || s[i] == '>') && s[i + 1] == s[i]) || (
    s[i] == '>' && s[i + 1] == '&')) {
        2
    } else {
        1
    }
}

/// A non-empty run of decimal digits (a file descriptor before a redirection).
pub open spec fn all_digits(s: Seq<char>) -> bool {
    s.len() > 0 && forall|k: int| 0 <= k < s.len() ==> '0' <= #[trigger] s[k] <= '9'
}

/// `acc` with `cur` added as a token unless it is empty.
pub open spec fn flush(acc: Seq<Seq<char>>, cur: Seq<char>) -> Seq<Seq<char>> {
    if cur.len() > 0 {
        acc.push(cur)
    } else {
        acc
    }
}

/// The tokens of `s` from index `i` on, given the lexer state (`mode`, the token `cur`
/// being read, the tokens `acc` read so far).
///
/// Outside quotes, whitespace ends a token and operators (`|`, `||`, `&`, `&&`, `;`, `<`,
/// `>`, `>>`, `>&`) are tokens of their own; a redirection operator right after a run of
/// digits joins them (`2>`). Quotes and backslash escapes are kept in the token; inside
/// quotes whitespace and operators are plain characters.
pub open spec fn lex_from(
    s: Seq<char>,
    i: int,
    mode: LexMode,
    cur: Seq<char>,
    acc: Seq<Seq<char>>,
) -> Seq<Seq<char>>
    decreases s.len() - i,
{
    if i < 0 || i >= s.len() {
        flush(acc, cur)
    } else {
        let c = s[i];
        match mode {
            LexMode::SingleQuoted => lex_from(
                s,
                i + 1,
                if c == '\'' {
                    LexMode::Plain
                } else {
                    LexMode::SingleQuoted
                },
                cur.push(c),
                acc,
            ),
            LexMode::DoubleQuoted => if c == '\\' && i + 1 < s.len() {
                lex_from(s, i + 2, LexMode::DoubleQuoted, cur.push(c).push(s[i + 1]), acc)
            } else {
                lex_from(
                    s,
                    i + 1,
                    if c == '"' {
                        LexMode::Plain
                    } else {
                        LexMode::DoubleQuoted
                    },
                    cur.push(c),
                    acc,
                )
            },
            LexMode::Plain => if is_space(c) {
                lex_from(s, i + 1, LexMode::Plain, Seq::empty(), flush(acc, cur))
            } else if c == '\'' {
                lex_from(s, i + 1, LexMode::SingleQuoted, cur.push(c), acc)
            } else if c == '"' {
                lex_from(s, i + 1, LexMode::DoubleQuoted, cur.push(c), acc)
            } else if c == '\\' {
                if i + 1 < s.len() {
                    lex_from(s, i + 2, LexMode::Plain, cur.push(c).push(s[i + 1]), acc)
                } else {
                    lex_from(s, i + 1, LexMode::Plain, cur.push(c), acc)
                }
            } else if is_operator_char(c) {
                let n = operator_len(s, i);
                let op = s.subrange(i, i + n);
                if (c == '<' || c == '>') && all_digits(cur) {
                    lex_from(s, i + n, LexMode::Plain, Seq::empty(), acc.push(cur + op))
                } else {
                    lex_from(s, i + n, LexMode::Plain, Seq::empty(), flush(acc, cur).push(op))
                }
            } else {
                lex_from(s, i + 1, LexMode::Plain, cur.push(c), acc)
            },
        }
    }
}

/// The tokens of a command line.
pub open spec fn lex(s: Seq<char>) -> Seq<Seq<char>> {
    lex_from(s, 0, LexMode::Plain, Seq::empty(), Seq::empty())
}

// ---------------------------------------------------------------------------
// Specification: tokens and paths
// ---------------------------------------------------------------------------

/// The trimmed token without one pair of matching surrounding quotes.
pub open spec fn unquote(token: Seq<char>) -> Seq<char> {
    let t = trim(token);
    if t.len() >= 2 && ((t[0] == '\'' && t.last() == '\'') || (t[0] == '"' && t.last() == '"')) {
        t.subrange(1, t.len() - 1)
    } else {
        t
    }
}

/// An ASCII letter.
pub open spec fn is_ascii_alpha(c: char) -> bool {
    ('a' <= c <= 'z') || ('A' <= c <= 'Z')
}

/// Whether a token starts with a Windows drive (`C:`, `C:\`, `C:/`); never on Unix.
pub open spec fn has_drive_prefix(token: Seq<char>, platform: HostPlatform) -> bool {
    &&& platform == HostPlatform::Windows
    &&& token.len() >= 2
    &&& is_ascii_alpha(token[0])
    &&& token[1] == ':'
    &&& token.len() == 2 || token[2] == '\\' || token[2] == '/'
}

/// The shells that follow POSIX conventions.
pub open spec fn is_posix_shell(kind: Seq<char>) -> bool {
    kind == "git-bash"@ || kind == "bash"@ || kind == "zsh"@ || kind == "sh"@
}

/// Whether a token names a device that swallows or echoes output (`/dev/null`, `nul`, ...)
/// in the given shell; compared trimmed and ASCII-lower-cased.
pub open spec fn is_virtual_sink(token: Seq<char>, shell_kind: Seq<char>) -> bool {
    let t = ascii_lowercase(trim(token));
    if is_posix_shell(shell_kind) {
        t == "/dev/null"@ || t == "/dev/stdout"@ || t == "/dev/stderr"@ || t == "/dev/tty"@
    } else {
        t == "nul"@ || t == "con"@ || t == "prn"@ || t == "aux"@
    }
}

/// Whether a path is absolute (`Path::is_absolute`): on Unix it starts at the root; on
/// Windows it has a prefix and a root (see [`win_is_absolute`]).
pub open spec fn path_is_absolute(p: Seq<char>, platform: HostPlatform) -> bool {
    match platform {
        HostPlatform::Unix => p.len() > 0 && p[0] == '/',
        HostPlatform::Windows => win_is_absolute(p),
    }
}

/// `rel` joined onto `base`, as `PathBuf::push` does: on Unix an absolute path replaces the
/// base, and otherwise `/` goes between the two unless the base is empty or ends with one;
/// on Windows see [`win_push`].
pub open spec fn join_path(base: Seq<char>, rel: Seq<char>, platform: HostPlatform) -> Seq<char> {
    match platform {
        HostPlatform::Windows => win_push(base, rel),
        HostPlatform::Unix => if rel.len() > 0 && rel[0] == '/' {
            rel
        } else if base.len() == 0 || base.last() == '/' {
            base + rel
        } else {
            base.push('/') + rel
        },
    }
}

/// A path typed in a command, in the platform's form: trimmed, and with `/` turned into
/// `\` on Windows.
pub open spec fn normalize_path_input(token: Seq<char>, platform: HostPlatform) -> Seq<char> {
    let t = trim(token);
    if platform == HostPlatform::Windows {
        t.map_values(|c: char| if c == '/' { '\\' } else { c })
    } else {
        t
    }
}

/// The text two paths are compared by: the path itself on Unix; on Windows lower-cased
/// (ASCII) and with `\` turned into `/`.
pub open spec fn path_compare_key(p: Seq<char>, platform: HostPlatform) -> Seq<char> {
    if platform == HostPlatform::Windows {
        ascii_lowercase(p).map_values(|c: char| if c == '\\' { '/' } else { c })
    } else {
        p
    }
}

/// Shell operators that separate commands or redirect their input and output.
pub open spec fn is_shell_operator_token(t: Seq<char>) -> bool {
    t == "|"@ || t == "||"@ || t == "&"@ || t == "&&"@ || t == ";"@ || t == ">"@ || t == ">>"@
        || t == "<"@
}

/// The path a raw token stands for, resolved against `cwd`; none for empty tokens,
/// options, globs, URLs and shell operators.
pub open spec fn resolve_candidate(cwd: Seq<char>, raw: Seq<char>, platform: HostPlatform) -> Option<
    Seq<char>,
> {
    let token = unquote(raw);
    if token.len() == 0 || token[0] == '-' || has_char(token, '*') || has_char(token, '?')
        || contains(token, "://"@) || is_shell_operator_token(token) {
        None
    } else {
        let normalized = normalize_path_input(token, platform);
        if normalized.len() == 0 {
            None
        } else if path_is_absolute(normalized, platform) {
            Some(normalized)
        } else {
            Some(join_path(cwd, normalized, platform))
        }
    }
}

/// Whether a raw token is written as an absolute path.
pub open spec fn raw_token_is_absolute(raw: Seq<char>, platform: HostPlatform) -> bool {
    let token = unquote(raw);
    let normalized = normalize_path_input(token, platform);
    &&& token.len() > 0
    &&& normalized.len() > 0
    &&& path_is_absolute(normalized, platform) || has_drive_prefix(normalized, platform)
}

/// Whether an (unquoted, trimmed) token counts as an absolute path in a command.
pub open spec fn token_is_absolute_path(
    token: Seq<char>,
    shell_kind: Seq<char>,
    platform: HostPlatform,
) -> bool {
    let t = trim(unquote(token));
    &&& t.len() > 0
    &&& !is_virtual_sink(t, shell_kind)
    &&& !contains(t, "://"@)
    &&& path_is_absolute(t, platform) || has_drive_prefix(t, platform)
}

/// Tokens that separate commands.
pub open spec fn is_control_token(t: Seq<char>) -> bool {
    t == "|"@ || t == "||"@ || t == "&"@ || t == "&&"@ || t == ";"@
}

/// Redirection tokens: an optional file descriptor, then `<`, `>`, `>>` or `>&`.
pub open spec fn is_redirect_token(t: Seq<char>) -> bool {
    exists|k: int|
        0 <= k < t.len() && (k == 0 || all_digits(t.take(k))) && (#[trigger] t.skip(k) == "<"@
            || t.skip(k) == ">"@ || t.skip(k) == ">>"@ || t.skip(k) == ">&"@)
}

/// The path candidates of the tokens from index `i` on. Command words (the first word of
/// each command) are skipped, as are operators, the file descriptor after `>&`, and virtual
/// devices (quoted or not); every other token that resolves to a path is a candidate.
pub open spec fn candidates_from(
    tokens: Seq<Seq<char>>,
    i: int,
    at_command: bool,
    skip_next: bool,
    cwd: Seq<char>,
    shell_kind: Seq<char>,
    platform: HostPlatform,
) -> Seq<CandidateView>
    decreases tokens.len() - i,
{
    if i < 0 || i >= tokens.len() {
        Seq::empty()
    } else {
        let t = tokens[i];
        if skip_next {
            candidates_from(tokens, i + 1, at_command, false, cwd, shell_kind, platform)
        } else if is_control_token(t) {
            candidates_from(tokens, i + 1, true, false, cwd, shell_kind, platform)
        } else if is_redirect_token(t) {
            candidates_from(
                tokens,
                i + 1,
                at_command,
                t.last() == '&',
                cwd,
                shell_kind,
                platform,
            )
        } else if at_command || is_virtual_sink(unquote(t), shell_kind) {
            candidates_from(tokens, i + 1, false, false, cwd, shell_kind, platform)
        } else {
            match resolve_candidate(cwd, t, platform) {
                Some(p) => seq![CandidateView { path: p, is_absolute: raw_token_is_absolute(t, platform) }]
                    + candidates_from(tokens, i + 1, false, false, cwd, shell_kind, platform),
                None => candidates_from(tokens, i + 1, false, false, cwd, shell_kind, platform),
            }
        }
    }
}

/// The path candidates of a command line run in `cwd`.
pub open spec fn command_candidates(
    cwd: Seq<char>,
    command: Seq<char>,
    shell_kind: Seq<char>,
    platform: HostPlatform,
) -> Seq<CandidateView> {
    candidates_from(lex(command), 0, true, false, cwd, shell_kind, platform)
}

/// The compare keys of a list of paths.
pub open spec fn compare_keys(paths: Seq<Seq<char>>, platform: HostPlatform) -> Seq<Seq<char>> {
    paths.map_values(|p: Seq<char>| path_compare_key(p, platform))
}

/// The paths without those whose compare key an earlier path already has.
pub open spec fn dedup(paths: Seq<Seq<char>>, platform: HostPlatform) -> Seq<Seq<char>>
    decreases paths.len(),
{
    if paths.len() == 0 {
        Seq::empty()
    } else {
        let rest = dedup(paths.drop_last(), platform);
        if compare_keys(rest, platform).contains(path_compare_key(paths.last(), platform)) {
            rest
        } else {
            rest.push(paths.last())
        }
    }
}

/// The paths of a list of candidates.
pub open spec fn candidate_paths(c: Seq<CandidateView>) -> Seq<Seq<char>> {
    c.map_values(|v: CandidateView| v.path)
}

// ---------------------------------------------------------------------------
// Lemmas
// ---------------------------------------------------------------------------

proof fn lemma_dedup_push(paths: Seq<Seq<char>>, p: Seq<char>, platform: HostPlatform)
    ensures
        dedup(paths.push(p), platform) == if compare_keys(dedup(paths, platform), platform).contains(
            path_compare_key(p, platform),
        ) {
            dedup(paths, platform)
        } else {
            dedup(paths, platform).push(p)
        },
{
    assert(paths.push(p).drop_last() =~= paths);
}

/// Deduplication keeps, in order, exactly one path per compare key: the first one.
pub proof fn lemma_dedup_props(paths: Seq<Seq<char>>, platform: HostPlatform)
    ensures
        forall|i: int, j: int|
            0 <= i < j < dedup(paths, platform).len() ==> path_compare_key(
                #[trigger] dedup(paths, platform)[i],
                platform,
            ) != path_compare_key(#[trigger] dedup(paths, platform)[j], platform),
        forall|k: int|
            0 <= k < paths.len() ==> compare_keys(dedup(paths, platform), platform).contains(
                path_compare_key(#[trigger] paths[k], platform),
            ),
        forall|i: int|
            0 <= i < dedup(paths, platform).len() ==> paths.contains(
                #[trigger] dedup(paths, platform)[i],
            ),
    decreases paths.len(),
{
    if paths.len() > 0 {
        let d = paths.drop_last();
        let p = paths.last();
        lemma_dedup_props(d, platform);
        let r = dedup(d, platform);
        let key = path_compare_key(p, platform);
        assert(paths =~= d.push(p));
        if compare_keys(r, platform).contains(key) {
            assert forall|k: int| 0 <= k < paths.len() implies compare_keys(
                dedup(paths, platform),
                platform,
            ).contains(path_compare_key(#[trigger] paths[k], platform)) by {
                if k < d.len() {
                    assert(paths[k] == d[k]);
                }
            }
            assert forall|i: int| 0 <= i < dedup(paths, platform).len() implies paths.contains(
                #[trigger] dedup(paths, platform)[i],
            ) by {
                let m = choose|m: int| 0 <= m < d.len() && d[m] == r[i];
                assert(paths[m] == d[m]);
            }
        } else {
            let out = r.push(p);
            assert(compare_keys(out, platform) =~= compare_keys(r, platform).push(key));
            assert forall|i: int, j: int| 0 <= i < j < out.len() implies path_compare_key(
                #[trigger] out[i],
                platform,
            ) != path_compare_key(#[trigger] out[j], platform) by {
                if j == out.len() - 1 {
                    assert(compare_keys(r, platform)[i] == path_compare_key(r[i], platform));
                }
            }
            assert forall|k: int| 0 <= k < paths.len() implies compare_keys(out, platform).contains(
                path_compare_key(#[trigger] paths[k], platform),
            ) by {
                if k < d.len() {
                    assert(paths[k] == d[k]);
                    let m = choose|m: int|
                        0 <= m < compare_keys(r, platform).len() && compare_keys(r, platform)[m]
                            == path_compare_key(d[k], platform);
                    assert(compare_keys(out, platform)[m] == compare_keys(r, platform)[m]);
                } else {
                    assert(compare_keys(out, platform)[out.len() - 1] == key);
                }
            }
            assert forall|i: int| 0 <= i < out.len() implies paths.contains(#[trigger] out[i]) by {
                if i < r.len() {
                    let m = choose|m: int| 0 <= m < d.len() && d[m] == r[i];
                    assert(paths[m] == d[m]);
                } else {
                    assert(paths[paths.len() - 1] == p);
                }
            }
        }
    }
}


/// Unquoting undoes quoting: a text wrapped in single quotes comes back unchanged.
pub proof fn lemma_unquote_single_quoted(x: Seq<char>)
    ensures
        unquote(seq!['\''] + x + seq!['\'']) == x,
{
    let q = seq!['\''] + x + seq!['\''];
    assert(!is_space(q[0]) && !is_space(q.last()));
    crate::text::lemma_trim_fixed(q);
    assert(q.subrange(1, q.len() - 1) =~= x);
}

/// Unquoting undoes quoting: a text wrapped in double quotes comes back unchanged.
pub proof fn lemma_unquote_double_quoted(x: Seq<char>)
    ensures
        unquote(seq!['"'] + x + seq!['"']) == x,
{
    let q = seq!['"'] + x + seq!['"'];
    assert(!is_space(q[0]) && !is_space(q.last()));
    crate::text::lemma_trim_fixed(q);
    assert(q.subrange(1, q.len() - 1) =~= x);
}

/// On Unix a candidate path is either the absolute path the token names or lies under the
/// working directory: it starts with `cwd` followed by a separator.
pub proof fn lemma_unix_candidate_under_cwd(cwd: Seq<char>, raw: Seq<char>)
    requires
        cwd.len() > 0,
        cwd.last() != '/',
    ensures
        resolve_candidate(cwd, raw, HostPlatform::Unix) matches Some(p) ==> (
        path_is_absolute(p, HostPlatform::Unix) && p == trim(unquote(raw))) || (p.take(
            cwd.len() + 1 as int,
        ) == cwd.push('/') && p.len() > cwd.len() + 1),
{
    let token = unquote(raw);
    let normalized = normalize_path_input(token, HostPlatform::Unix);
    if let Some(p) = resolve_candidate(cwd, raw, HostPlatform::Unix) {
        if !path_is_absolute(normalized, HostPlatform::Unix) {
            assert(p == cwd.push('/') + normalized);
            assert(p.take(cwd.len() + 1 as int) =~= cwd.push('/'));
        }
    }
}

/// A candidate `c` comes from token `t`: the token (unquoted) is no virtual device, it
/// resolves to the candidate's path, and the candidate is marked absolute exactly when the
/// token is written as an absolute path.
pub open spec fn token_yields_candidate(
    t: Seq<char>,
    c: CandidateView,
    cwd: Seq<char>,
    shell_kind: Seq<char>,
    platform: HostPlatform,
) -> bool {
    &&& !is_virtual_sink(unquote(t), shell_kind)
    &&& resolve_candidate(cwd, t, platform) == Some(c.path)
    &&& c.is_absolute == raw_token_is_absolute(t, platform)
}

proof fn lemma_candidates_from_provenance(
    tokens: Seq<Seq<char>>,
    i: int,
    at_command: bool,
    skip_next: bool,
    cwd: Seq<char>,
    shell_kind: Seq<char>,
    platform: HostPlatform,
)
    requires
        0 <= i,
    ensures
        forall|k: int|
            0 <= k < candidates_from(tokens, i, at_command, skip_next, cwd, shell_kind, platform).len()
                ==> exists|j: int|
                i <= j < tokens.len() && token_yields_candidate(
                    tokens[j],
                    #[trigger] candidates_from(tokens, i, at_command, skip_next, cwd, shell_kind, platform)[k],
                    cwd,
                    shell_kind,
                    platform,
                ),
    decreases tokens.len() - i,
{
    if i < tokens.len() {
        let t = tokens[i];
        let here = candidates_from(tokens, i, at_command, skip_next, cwd, shell_kind, platform);
        let (next_at, next_skip) = if skip_next {
            (at_command, false)
        } else if is_control_token(t) {
            (true, false)
        } else if is_redirect_token(t) {
            (at_command, t.last() == '&')
        } else {
            (false, false)
        };
        let rest = candidates_from(tokens, i + 1, next_at, next_skip, cwd, shell_kind, platform);
        lemma_candidates_from_provenance(tokens, i + 1, next_at, next_skip, cwd, shell_kind, platform);
        let pushed = !skip_next && !is_control_token(t) && !is_redirect_token(t) && !at_command
            && !is_virtual_sink(unquote(t), shell_kind) && resolve_candidate(cwd, t, platform) is Some;
        if pushed {
            let c = CandidateView {
                path: resolve_candidate(cwd, t, platform)->0,
                is_absolute: raw_token_is_absolute(t, platform),
            };
            assert(here == seq![c] + rest);
            assert(token_yields_candidate(tokens[i], c, cwd, shell_kind, platform));
        } else {
            assert(here == rest);
        }
        assert forall|k: int| 0 <= k < here.len() implies exists|j: int|
            i <= j < tokens.len() && token_yields_candidate(
                tokens[j],
                #[trigger] here[k],
                cwd,
                shell_kind,
                platform,
            ) by {
            if pushed {
                if k == 0 {
                    assert(token_yields_candidate(tokens[i], here[0], cwd, shell_kind, platform));
                } else {
                    assert(here[k] == rest[k - 1]);
                }
            } else {
                assert(here[k] == rest[k]);
            }
        }
    }
}

/// Every path candidate of a command comes from one of its tokens: a token that is no
/// virtual device, that resolves to the candidate's path, and that is written as an
/// absolute path exactly when the candidate is marked absolute.
pub proof fn lemma_candidates_come_from_tokens(
    cwd: Seq<char>,
    command: Seq<char>,
    shell_kind: Seq<char>,
    platform: HostPlatform,
)
    ensures
        forall|k: int|
            0 <= k < command_candidates(cwd, command, shell_kind, platform).len() ==> exists|j: int|
                0 <= j < lex(command).len() && token_yields_candidate(
                    lex(command)[j],
                    #[trigger] command_candidates(cwd, command, shell_kind, platform)[k],
                    cwd,
                    shell_kind,
                    platform,
                ),
{
    lemma_candidates_from_provenance(lex(command), 0, true, false, cwd, shell_kind, platform);
}

proof fn lemma_ascii_lower_keeps(c: char, d: char)
    requires
        !('a' <= d <= 'z'),
        ascii_lower(c) == d,
    ensures
        c == d,
{
}

/// A token written as an absolute path resolves to the path as written (in the platform's
/// form); when the token is no virtual device, neither is that path.
proof fn lemma_absolute_token_not_sink(
    cwd: Seq<char>,
    t: Seq<char>,
    shell_kind: Seq<char>,
    platform: HostPlatform,
)
    requires
        !is_virtual_sink(unquote(t), shell_kind),
        raw_token_is_absolute(t, platform),
        resolve_candidate(cwd, t, platform) is Some,
    ensures
        resolve_candidate(cwd, t, platform)->0 == normalize_path_input(unquote(t), platform),
        !is_virtual_sink(resolve_candidate(cwd, t, platform)->0, shell_kind),
{
    let token = unquote(t);
    let tt = trim(token);
    let n = normalize_path_input(token, platform);
    lemma_trim_ends(token);
    reveal_strlit("/dev/null");
    reveal_strlit("/dev/stdout");
    reveal_strlit("/dev/stderr");
    reveal_strlit("/dev/tty");
    reveal_strlit("nul");
    reveal_strlit("con");
    reveal_strlit("prn");
    reveal_strlit("aux");
    if platform == HostPlatform::Windows {
        assert(n.len() == tt.len());
        assert(n.len() > 0);
        assert(!is_space(n[0]));
        assert(!is_space(n.last()));
        lemma_trim_fixed(n);
        let l = ascii_lowercase(n);
        assert(l.len() == n.len());
        assert(n[0] != '/');
        if is_posix_shell(shell_kind) {
            if l.len() > 0 && l[0] == '/' {
                lemma_ascii_lower_keeps(n[0], '/');
            }
        } else {
            if n[1] == ':' {
                assert(l[1] == ascii_lower(n[1]));
            } else {
                assert(n[0] == '\\');
                assert(l[0] == ascii_lower(n[0]));
            }
        }
    }
}

/// No path candidate marked absolute names a virtual device: such a candidate is the path as
/// written, and a token naming a virtual device is never a candidate.
pub proof fn lemma_absolute_candidates_not_sinks(
    cwd: Seq<char>,
    command: Seq<char>,
    shell_kind: Seq<char>,
    platform: HostPlatform,
)
    ensures
        forall|k: int|
            0 <= k < command_candidates(cwd, command, shell_kind, platform).len()
                && (#[trigger] command_candidates(cwd, command, shell_kind, platform)[k]).is_absolute
                ==> !is_virtual_sink(command_candidates(cwd, command, shell_kind, platform)[k].path, shell_kind),
{
    lemma_candidates_come_from_tokens(cwd, command, shell_kind, platform);
    let cands = command_candidates(cwd, command, shell_kind, platform);
    assert forall|k: int| 0 <= k < cands.len() && (#[trigger] cands[k]).is_absolute implies !is_virtual_sink(
        cands[k].path,
        shell_kind,
    ) by {
        let j = choose|j: int|
            0 <= j < lex(command).len() && token_yields_candidate(
                lex(command)[j],
                cands[k],
                cwd,
                shell_kind,
                platform,
            );
        lemma_absolute_token_not_sink(cwd, lex(command)[j], shell_kind, platform);
    }
}

/// No shell operator is a path: a token that, unquoted, is `|`, `||`, `&`, `&&`, `;`, `>`,
/// `>>` or `<` resolves to no candidate, on every platform and against every directory.
pub proof fn lemma_shell_operators_resolve_to_nothing(
    cwd: Seq<char>,
    raw: Seq<char>,
    platform: HostPlatform,
)
    requires
        unquote(raw) == "|"@ || unquote(raw) == "||"@ || unquote(raw) == "&"@ || unquote(raw)
            == "&&"@ || unquote(raw) == ";"@ || unquote(raw) == ">"@ || unquote(raw) == ">>"@
            || unquote(raw) == "<"@,
    ensures
        resolve_candidate(cwd, raw, platform) is None,
{
}

/// Options, globs and URLs are no paths: a token that, unquoted, starts with `-`, holds `*`
/// or `?`, or holds `://` resolves to no candidate, on every platform.
pub proof fn lemma_options_globs_urls_resolve_to_nothing(
    cwd: Seq<char>,
    raw: Seq<char>,
    platform: HostPlatform,
    i: int,
)
    requires
        ({
            let t = unquote(raw);
            ||| t.len() > 0 && t[0] == '-'
            ||| 0 <= i < t.len() && (t[i] == '*' || t[i] == '?')
            ||| 0 <= i && i + 3 <= t.len() && t[i] == ':' && t[i + 1] == '/' && t[i + 2] == '/'
        }),
    ensures
        resolve_candidate(cwd, raw, platform) is None,
{
    let t = unquote(raw);
    reveal_strlit("://");
    if 0 <= i && i + 3 <= t.len() && t[i] == ':' && t[i + 1] == '/' && t[i + 2] == '/' {
        assert(t.subrange(i, i + 3) =~= "://"@);
        assert(occurs_at(t, "://"@, i));
    }
}

/// On Unix a token that is a path (not blank, no option, glob, URL or shell operator)
/// resolves to itself, trimmed and unquoted, when it starts at the root, and otherwise to the
/// working directory, a `/` unless the directory is empty or ends with one, and the token.
pub proof fn lemma_unix_resolution(cwd: Seq<char>, raw: Seq<char>)
    requires
        ({
            let t = unquote(raw);
            &&& trim(t).len() > 0
            &&& t[0] != '-'
            &&& forall|i: int| 0 <= i < t.len() ==> #[trigger] t[i] != '*' && t[i] != '?'
            &&& !contains(t, "://"@)
            &&& t != "|"@ && t != "||"@ && t != "&"@ && t != "&&"@ && t != ";"@ && t != ">"@ && t
                != ">>"@ && t != "<"@
        }),
    ensures
        ({
            let p = trim(unquote(raw));
            resolve_candidate(cwd, raw, HostPlatform::Unix) == Some(
                if p[0] == '/' {
                    p
                } else if cwd.len() == 0 || cwd.last() == '/' {
                    cwd + p
                } else {
                    cwd.push('/') + p
                },
            )
        }),
{
    let t = unquote(raw);
    assert(!has_char(t, '*'));
    assert(!has_char(t, '?'));
}

/// On Windows two paths that differ only in the ASCII case of their letters and in which of
/// `\` and `/` separates them compare as the same path; on Unix paths compare as written.
pub proof fn lemma_windows_paths_compare_ignoring_case_and_separators(p: Seq<char>, q: Seq<char>)
    requires
        p.len() == q.len(),
        forall|i: int|
            0 <= i < p.len() ==> ascii_lower(#[trigger] p[i]) == ascii_lower(q[i]) || ((p[i] == '\\'
                || p[i] == '/') && (q[i] == '\\' || q[i] == '/')),
    ensures
        path_compare_key(p, HostPlatform::Windows) == path_compare_key(q, HostPlatform::Windows),
        path_compare_key(p, HostPlatform::Unix) == p,
{
    let kp = path_compare_key(p, HostPlatform::Windows);
    let kq = path_compare_key(q, HostPlatform::Windows);
    assert forall|i: int| 0 <= i < kp.len() implies kp[i] == kq[i] by {
        assert(ascii_lowercase(p)[i] == ascii_lower(p[i]));
        assert(ascii_lowercase(q)[i] == ascii_lower(q[i]));
    }
    assert(kp =~= kq);
}

/// On Windows a drive written bare or with a root (`D:`, `D:\x`, `D:/x`) counts as an
/// absolute path token of a command, in every shell, unless it holds `://`.
pub proof fn lemma_drive_token_is_absolute(command: Seq<char>, shell_kind: Seq<char>, k: int)
    requires
        0 <= k < lex(command).len(),
        ({
            let t = trim(unquote(lex(command)[k]));
            &&& t.len() >= 2
            &&& ('a' <= t[0] <= 'z' || 'A' <= t[0] <= 'Z')
            &&& t[1] == ':'
            &&& t.len() == 2 || t[2] == '\\' || t[2] == '/'
            &&& !contains(t, "://"@)
        }),
    ensures
        exists|j: int|
            0 <= j < lex(command).len() && token_is_absolute_path(
                #[trigger] lex(command)[j],
                shell_kind,
                HostPlatform::Windows,
            ),
{
    let tok = lex(command)[k];
    let t = trim(unquote(tok));
    lemma_trim_ends(unquote(tok));
    let l = ascii_lowercase(trim(t));
    assert(l[1] == ':');
    reveal_strlit("/dev/null");
    reveal_strlit("/dev/stdout");
    reveal_strlit("/dev/stderr");
    reveal_strlit("/dev/tty");
    reveal_strlit("nul");
    reveal_strlit("con");
    reveal_strlit("prn");
    reveal_strlit("aux");
    assert(!is_virtual_sink(t, shell_kind));
    assert(token_is_absolute_path(tok, shell_kind, HostPlatform::Windows));
}

/// In a POSIX shell (`git-bash`, `bash`, `zsh`, `sh`) a token naming `/dev/null`,
/// `/dev/stdout`, `/dev/stderr` or `/dev/tty` (quoted or not, trimmed, in any ASCII case) is a
/// virtual device, and never an absolute path token of a command.
pub proof fn lemma_posix_device_token(token: Seq<char>, shell_kind: Seq<char>, platform: HostPlatform)
    requires
        shell_kind == "git-bash"@ || shell_kind == "bash"@ || shell_kind == "zsh"@ || shell_kind
            == "sh"@,
        ({
            let l = ascii_lowercase(trim(unquote(token)));
            l == "/dev/null"@ || l == "/dev/stdout"@ || l == "/dev/stderr"@ || l == "/dev/tty"@
        }),
    ensures
        is_virtual_sink(unquote(token), shell_kind),
        !token_is_absolute_path(token, shell_kind, platform),
{
    lemma_trim_ends(unquote(token));
}

/// In a POSIX shell no path candidate of a command comes from a token naming `/dev/null`,
/// `/dev/stdout`, `/dev/stderr` or `/dev/tty`: each candidate comes from a token of the
/// command that names no such device.
pub proof fn lemma_posix_devices_are_not_candidates(
    cwd: Seq<char>,
    command: Seq<char>,
    shell_kind: Seq<char>,
    platform: HostPlatform,
    k: int,
)
    requires
        shell_kind == "git-bash"@ || shell_kind == "bash"@ || shell_kind == "zsh"@ || shell_kind
            == "sh"@,
        0 <= k < command_candidates(cwd, command, shell_kind, platform).len(),
    ensures
        exists|j: int|
            0 <= j < lex(command).len() && !({
                let l = ascii_lowercase(trim(unquote(#[trigger] lex(command)[j])));
                l == "/dev/null"@ || l == "/dev/stdout"@ || l == "/dev/stderr"@ || l == "/dev/tty"@
            }) && token_yields_candidate(
                lex(command)[j],
                command_candidates(cwd, command, shell_kind, platform)[k],
                cwd,
                shell_kind,
                platform,
            ),
{
    lemma_candidates_come_from_tokens(cwd, command, shell_kind, platform);
    let c = command_candidates(cwd, command, shell_kind, platform)[k];
    let j = choose|j: int|
        0 <= j < lex(command).len() && token_yields_candidate(
            lex(command)[j],
            c,
            cwd,
            shell_kind,
            platform,
        );
    let l = ascii_lowercase(trim(unquote(lex(command)[j])));
    if l == "/dev/null"@ || l == "/dev/stdout"@ || l == "/dev/stderr"@ || l == "/dev/tty"@ {
        lemma_posix_device_token(lex(command)[j], shell_kind, platform);
    }
}

/// The lexer state after the character at `i` (for `0 <= i < s.len()`), as `lex_from`
/// steps: the next index, mode, current token and finished tokens.
spec fn lex_next(s: Seq<char>, i: int, mode: LexMode, cur: Seq<char>, acc: Seq<Seq<char>>) -> (
    int,
    LexMode,
    Seq<char>,
    Seq<Seq<char>>,
) {
    let c = s[i];
    match mode {
        LexMode::SingleQuoted => (
            i + 1,
            if c == '\'' {
                LexMode::Plain
            } else {
                LexMode::SingleQuoted
            },
            cur.push(c),
            acc,
        ),
        LexMode::DoubleQuoted => if c == '\\' && i + 1 < s.len() {
            (i + 2, LexMode::DoubleQuoted, cur.push(c).push(s[i + 1]), acc)
        } else {
            (
                i + 1,
                if c == '"' {
                    LexMode::Plain
                } else {
                    LexMode::DoubleQuoted
                },
                cur.push(c),
                acc,
            )
        },
        LexMode::Plain => if is_space(c) {
            (i + 1, LexMode::Plain, Seq::empty(), flush(acc, cur))
        } else if c == '\'' {
            (i + 1, LexMode::SingleQuoted, cur.push(c), acc)
        } else if c == '"' {
            (i + 1, LexMode::DoubleQuoted, cur.push(c), acc)
        } else if c == '\\' {
            if i + 1 < s.len() {
                (i + 2, LexMode::Plain, cur.push(c).push(s[i + 1]), acc)
            } else {
                (i + 1, LexMode::Plain, cur.push(c), acc)
            }
        } else if is_operator_char(c) {
            let n = operator_len(s, i);
            let op = s.subrange(i, i + n);
            if (c == '<' || c == '>') && all_digits(cur) {
                (i + n, LexMode::Plain, Seq::empty(), acc.push(cur + op))
            } else {
                (i + n, LexMode::Plain, Seq::empty(), flush(acc, cur).push(op))
            }
        } else {
            (i + 1, LexMode::Plain, cur.push(c), acc)
        },
    }
}

proof fn lemma_lex_from_nonempty(
    s: Seq<char>,
    i: int,
    mode: LexMode,
    cur: Seq<char>,
    acc: Seq<Seq<char>>,
)
    requires
        forall|k: int| 0 <= k < acc.len() ==> (#[trigger] acc[k]).len() > 0,
    ensures
        forall|k: int|
            0 <= k < lex_from(s, i, mode, cur, acc).len() ==> (#[trigger] lex_from(
                s,
                i,
                mode,
                cur,
                acc,
            )[k]).len() > 0,
    decreases s.len() - i,
{
    assert forall|k: int| 0 <= k < flush(acc, cur).len() implies (#[trigger] flush(
        acc,
        cur,
    )[k]).len() > 0 by {
        if k < acc.len() {
            assert(flush(acc, cur)[k] == acc[k]);
        }
    }
    if 0 <= i < s.len() {
        let c = s[i];
        if is_operator_char(c) && mode == LexMode::Plain {
            let n = operator_len(s, i);
            let op = s.subrange(i, i + n);
            assert(op.len() > 0);
            let a1 = acc.push(cur + op);
            let a2 = flush(acc, cur).push(op);
            assert forall|k: int| 0 <= k < a1.len() implies (#[trigger] a1[k]).len() > 0 by {
                if k < acc.len() {
                    assert(a1[k] == acc[k]);
                }
            }
            assert forall|k: int| 0 <= k < a2.len() implies (#[trigger] a2[k]).len() > 0 by {
                if k < flush(acc, cur).len() {
                    assert(a2[k] == flush(acc, cur)[k]);
                }
            }
        }
        let (j, m, c2, a2) = lex_next(s, i, mode, cur, acc);
        assert(lex_from(s, i, mode, cur, acc) == lex_from(s, j, m, c2, a2));
        lemma_lex_from_nonempty(s, j, m, c2, a2);
    }
}

/// Lexing never yields an empty token.
pub proof fn lemma_lex_tokens_nonempty(s: Seq<char>)
    ensures
        forall|k: int| 0 <= k < lex(s).len() ==> (#[trigger] lex(s)[k]).len() > 0,
{
    lemma_lex_from_nonempty(s, 0, LexMode::Plain, Seq::empty(), Seq::empty());
}

// ---------------------------------------------------------------------------
// Executable lexer
// ---------------------------------------------------------------------------

fn lex_chars(s: &[char]) -> (out: Vec<Vec<char>>)
    ensures
        views(out@) == lex(s@),
{
    let n = s.len();
    let mut i: usize = 0;
    let mut mode = LexMode::Plain;
    let mut cur: Vec<char> = Vec::new();
    let mut acc: Vec<Vec<char>> = Vec::new();
    assert(cur@ =~= Seq::<char>::empty());
    assert(views(acc@) =~= Seq::<Seq<char>>::empty());
    while i < n
        invariant
            n == s@.len(),
            i <= n,
            lex(s@) == lex_from(s@, i as int, mode, cur@, views(acc@)),
        decreases n - i,
    {
        let c = s[i];
        let ghost a = views(acc@);
        match mode {
            LexMode::SingleQuoted => {
                cur.push(c);
                if c == '\'' {
                    mode = LexMode::Plain;
                }
                i = i + 1;
            },
            LexMode::DoubleQuoted => {
                if c == '\\' && i + 1 < n {
                    cur.push(c);
                    cur.push(s[i + 1]);
                    i = i + 2;
                } else {
                    cur.push(c);
                    if c == '"' {
                        mode = LexMode::Plain;
                    }
                    i = i + 1;
                }
            },
            LexMode::Plain => {
                if char_is_space(c) {
                    if cur.len() > 0 {
                        acc.push(cur);
                        assert(views(acc@) =~= a.push(cur@));
                    }
                    cur = Vec::new();
                    assert(cur@ =~= Seq::<char>::empty());
                    i = i + 1;
                } else if c == '\'' {
                    cur.push(c);
                    mode = LexMode::SingleQuoted;
                    i = i + 1;
                } else if c == '"' {
                    cur.push(c);
                    mode = LexMode::DoubleQuoted;
                    i = i + 1;
                } else if c == '\\' {
                    cur.push(c);
                    if i + 1 < n {
                        cur.push(s[i + 1]);
                        i = i + 2;
                    } else {
                        i = i + 1;
                    }
                } else if c == '|' || c == '&' || c == ';' || c == '<' || c == '>' {
                    let len: usize = if i + 1 < n && (((c == '|' || c == '&' || c == '>') && s[i
                        + 1] == c) || (c == '>' && s[i + 1] == '&')) {
                        2
                    } else {
                        1
                    };
                    let op = sub_chars(s, i, i + len);
                    let mut digits = cur.len() > 0;
                    let mut k: usize = 0;
                    while k < cur.len()
                        invariant
                            k <= cur@.len(),
                            digits == (cur@.len() > 0 && forall|m: int|
                                0 <= m < k ==> '0' <= #[trigger] cur@[m] <= '9'),
                        decreases cur@.len() - k,
                    {
                        if !('0' <= cur[k] && cur[k] <= '9') {
                            digits = false;
                        }
                        k = k + 1;
                    }
                    assert(digits == all_digits(cur@));
                    if (c == '<' || c == '>') && digits {
                        let mut tok = cur;
                        push_chars(&mut tok, op.as_slice());
                        acc.push(tok);
                        assert(views(acc@) =~= a.push(tok@));
                    } else {
                        if cur.len() > 0 {
                            acc.push(cur);
                            assert(views(acc@) =~= a.push(cur@));
                        }
                        let ghost b = views(acc@);
                        acc.push(op);
                        assert(views(acc@) =~= b.push(op@));
                    }
                    cur = Vec::new();
                    assert(cur@ =~= Seq::<char>::empty());
                    i = i + len;
                } else {
                    cur.push(c);
                    i = i + 1;
                }
            },
        }
    }
    if cur.len() > 0 {
        let ghost a = views(acc@);
        acc.push(cur);
        assert(views(acc@) =~= a.push(cur@));
    }
    acc
}

/// The tokens of a command line: words (with their quotes and escapes kept) and shell
/// operators.
pub fn terminal_lex_command(command: &str) -> (out: Vec<String>)
    ensures
        crate::text::texts(out@) == lex(command@),
{
    let cs = chars_of(command);
    let tokens = lex_chars(cs.as_slice());
    strings_of_views(&tokens)
}


/// The tokens of a command line (see [`terminal_lex_command`]).
pub fn terminal_tokenize(command: &str) -> (out: Vec<String>)
    ensures
        crate::text::texts(out@) == lex(command@),
{
    terminal_lex_command(command)
}


// ---------------------------------------------------------------------------
// Executable token and path rules
// ---------------------------------------------------------------------------

fn unquote_chars(token: &[char]) -> (out: Vec<char>)
    ensures
        out@ == unquote(token@),
{
    let t = trim_chars(token);
    let n = t.len();
    if n >= 2 && ((t[0] == '\'' && t[n - 1] == '\'') || (t[0] == '"' && t[n - 1] == '"')) {
        return sub_chars(t.as_slice(), 1, n - 1);
    }
    t
}

/// The trimmed token without one pair of matching surrounding quotes (`'...'` or `"..."`).
pub fn terminal_unquote_token(token: &str) -> (out: String)
    ensures
        out@ == unquote(token@),
{
    let cs = chars_of(token);
    let u = unquote_chars(cs.as_slice());
    string_of(u.as_slice())
}

fn ascii_alpha(c: char) -> (b: bool)
    ensures
        b == is_ascii_alpha(c),
{
    ('a' <= c && c <= 'z') || ('A' <= c && c <= 'Z')
}

fn drive_prefix_chars(token: &[char], platform: HostPlatform) -> (b: bool)
    ensures
        b == has_drive_prefix(token@, platform),
{
    match platform {
        HostPlatform::Unix => false,
        HostPlatform::Windows => {
            let n = token.len();
            if n < 2 || token[1] != ':' || !ascii_alpha(token[0]) {
                return false;
            }
            if n == 2 {
                return true;
            }
            token[2] == '\\' || token[2] == '/'
        },
    }
}

/// Whether a token starts with a Windows drive (`C:`, `C:\...`, `C:/...`); on Unix never.
pub fn terminal_has_windows_drive_prefix(token: &str, platform: HostPlatform) -> (b: bool)
    ensures
        b == has_drive_prefix(token@, platform),
{
    let cs = chars_of(token);
    drive_prefix_chars(cs.as_slice(), platform)
}

fn text_is(s: &[char], lit: &str) -> (b: bool)
    ensures
        b == (s@ == lit@),
{
    let l = chars_of(lit);
    chars_eq(s, l.as_slice())
}

/// Whether the shell follows POSIX conventions (`git-bash`, `bash`, `zsh`, `sh`).
pub fn terminal_is_posix_style_shell(shell_kind: &str) -> (b: bool)
    ensures
        b == is_posix_shell(shell_kind@),
{
    let k = chars_of(shell_kind);
    text_is(k.as_slice(), "git-bash") || text_is(k.as_slice(), "bash") || text_is(
        k.as_slice(),
        "zsh",
    ) || text_is(k.as_slice(), "sh")
}

fn virtual_sink_chars(token: &[char], shell_kind: &str) -> (b: bool)
    ensures
        b == is_virtual_sink(token@, shell_kind@),
{
    let t = trim_chars(token);
    let l = ascii_lowercase_chars(t.as_slice());
    let ls = l.as_slice();
    if terminal_is_posix_style_shell(shell_kind) {
        text_is(ls, "/dev/null") || text_is(ls, "/dev/stdout") || text_is(ls, "/dev/stderr")
            || text_is(ls, "/dev/tty")
    } else {
        text_is(ls, "nul") || text_is(ls, "con") || text_is(ls, "prn") || text_is(ls, "aux")
    }
}

/// Whether a token names a virtual device (`/dev/null`, `/dev/stdout`, `/dev/stderr`,
/// `/dev/tty` in POSIX shells; `nul`, `con`, `prn`, `aux` otherwise), ignoring surrounding
/// whitespace and ASCII case.
pub fn terminal_is_virtual_sink_path(token: &str, shell_kind: &str) -> (b: bool)
    ensures
        b == is_virtual_sink(token@, shell_kind@),
{
    let cs = chars_of(token);
    virtual_sink_chars(cs.as_slice(), shell_kind)
}

fn absolute_chars(p: &[char], platform: HostPlatform) -> (b: bool)
    ensures
        b == path_is_absolute(p@, platform),
{
    match platform {
        HostPlatform::Unix => p.len() > 0 && p[0] == '/',
        HostPlatform::Windows => windows_is_absolute(p),
    }
}

fn join_chars_path(base: &[char], rel: &[char], platform: HostPlatform) -> (out: Vec<char>)
    ensures
        out@ == join_path(base@, rel@, platform),
{
    if platform == HostPlatform::Windows {
        return windows_push(base, rel);
    }
    let mut out: Vec<char> = Vec::new();
    if rel.len() > 0 && rel[0] == '/' {
        push_chars(&mut out, rel);
        assert(out@ =~= rel@);
        return out;
    }
    push_chars(&mut out, base);
    let n = base.len();
    if !(n == 0 || base[n - 1] == '/') {
        out.push('/');
    }
    push_chars(&mut out, rel);
    assert(out@ =~= join_path(base@, rel@, platform));
    out
}

fn normalize_input_chars(token: &[char], platform: HostPlatform) -> (out: Vec<char>)
    ensures
        out@ == normalize_path_input(token@, platform),
{
    let t = trim_chars(token);
    if platform == HostPlatform::Unix {
        return t;
    }
    let mut out: Vec<char> = Vec::new();
    let mut i: usize = 0;
    while i < t.len()
        invariant
            i <= t@.len(),
            out@ == t@.take(i as int).map_values(|c: char| if c == '/' { '\\' } else { c }),
        decreases t@.len() - i,
    {
        let c = t[i];
        out.push(if c == '/' { '\\' } else { c });
        i = i + 1;
        assert(out@ =~= t@.take(i as int).map_values(|c: char| if c == '/' { '\\' } else { c }));
    }
    assert(t@.take(t@.len() as int) =~= t@);
    out
}

/// The text by which two paths count as the same.
fn compare_key_chars(p: &[char], platform: HostPlatform) -> (out: Vec<char>)
    ensures
        out@ == path_compare_key(p@, platform),
{
    if platform == HostPlatform::Unix {
        let mut out: Vec<char> = Vec::new();
        push_chars(&mut out, p);
        assert(out@ =~= p@);
        return out;
    }
    let l = ascii_lowercase_chars(p);
    let mut out: Vec<char> = Vec::new();
    let mut i: usize = 0;
    while i < l.len()
        invariant
            i <= l@.len(),
            out@ == l@.take(i as int).map_values(|c: char| if c == '\\' { '/' } else { c }),
        decreases l@.len() - i,
    {
        let c = l[i];
        out.push(if c == '\\' { '/' } else { c });
        i = i + 1;
        assert(out@ =~= l@.take(i as int).map_values(|c: char| if c == '\\' { '/' } else { c }));
    }
    assert(l@.take(l@.len() as int) =~= l@);
    out
}

fn shell_operator_chars(t: &[char]) -> (b: bool)
    ensures
        b == is_shell_operator_token(t@),
{
    text_is(t, "|") || text_is(t, "||") || text_is(t, "&") || text_is(t, "&&") || text_is(t, ";")
        || text_is(t, ">") || text_is(t, ">>") || text_is(t, "<")
}

fn resolve_chars(cwd: &[char], raw: &[char], platform: HostPlatform) -> (out: Option<Vec<char>>)
    ensures
        match out {
            Some(p) => resolve_candidate(cwd@, raw@, platform) == Some(p@),
            None => resolve_candidate(cwd@, raw@, platform) is None,
        },
{
    let token = unquote_chars(raw);
    let tk = token.as_slice();
    if tk.len() == 0 {
        return None;
    }
    if tk[0] == '-' {
        return None;
    }
    if chars_have(tk, '*') || chars_have(tk, '?') {
        return None;
    }
    let scheme = chars_of("://");
    if chars_contain(tk, scheme.as_slice()) {
        return None;
    }
    if shell_operator_chars(tk) {
        return None;
    }
    let normalized = normalize_input_chars(tk, platform);
    if normalized.len() == 0 {
        return None;
    }
    if absolute_chars(normalized.as_slice(), platform) {
        Some(normalized)
    } else {
        Some(join_chars_path(cwd, normalized.as_slice(), platform))
    }
}

/// The path a raw command token stands for, resolved against `cwd` unless absolute; none
/// for empty tokens, options (`-...`), globs (`*`, `?`), URLs (`://`) and shell operators.
pub fn terminal_resolve_candidate_path(cwd: &str, raw: &str, platform: HostPlatform) -> (out:
    Option<String>)
    ensures
        match out {
            Some(p) => resolve_candidate(cwd@, raw@, platform) == Some(p@),
            None => resolve_candidate(cwd@, raw@, platform) is None,
        },
{
    let c = chars_of(cwd);
    let r = chars_of(raw);
    match resolve_chars(c.as_slice(), r.as_slice(), platform) {
        Some(p) => Some(string_of(p.as_slice())),
        None => None,
    }
}

fn raw_absolute_chars(raw: &[char], platform: HostPlatform) -> (b: bool)
    ensures
        b == raw_token_is_absolute(raw@, platform),
{
    let token = unquote_chars(raw);
    if token.len() == 0 {
        return false;
    }
    let normalized = normalize_input_chars(token.as_slice(), platform);
    if normalized.len() == 0 {
        return false;
    }
    absolute_chars(normalized.as_slice(), platform) || drive_prefix_chars(
        normalized.as_slice(),
        platform,
    )
}

/// Whether a raw command token is written as an absolute path (or, on Windows, starts with
/// a drive).
pub fn terminal_raw_token_is_absolute_path(raw: &str, platform: HostPlatform) -> (b: bool)
    ensures
        b == raw_token_is_absolute(raw@, platform),
{
    let r = chars_of(raw);
    raw_absolute_chars(r.as_slice(), platform)
}

/// Whether some token of a command is an absolute path, other than a virtual device or a
/// URL.
pub fn terminal_command_contains_absolute_path_token(
    command: &str,
    shell_kind: &str,
    platform: HostPlatform,
) -> (b: bool)
    ensures
        b == exists|k: int|
            0 <= k < lex(command@).len() && token_is_absolute_path(
                #[trigger] lex(command@)[k],
                shell_kind@,
                platform,
            ),
{
    let cs = chars_of(command);
    let tokens = lex_chars(cs.as_slice());
    let scheme = chars_of("://");
    let mut i: usize = 0;
    while i < tokens.len()
        invariant
            i <= tokens@.len(),
            views(tokens@) == lex(command@),
            scheme@ == "://"@,
            forall|k: int|
                0 <= k < i ==> !token_is_absolute_path(
                    #[trigger] lex(command@)[k],
                    shell_kind@,
                    platform,
                ),
        decreases tokens@.len() - i,
    {
        assert(views(tokens@)[i as int] == tokens@[i as int]@);
        let unquoted = unquote_chars(tokens[i].as_slice());
        let t = trim_chars(unquoted.as_slice());
        let tk = t.as_slice();
        let hit = tk.len() > 0 && !virtual_sink_chars(tk, shell_kind) && !chars_contain(
            tk,
            scheme.as_slice(),
        ) && (absolute_chars(tk, platform) || drive_prefix_chars(tk, platform));
        if hit {
            return true;
        }
        i = i + 1;
    }
    false
}

// ---------------------------------------------------------------------------
// Executable path collection
// ---------------------------------------------------------------------------

fn control_chars(t: &[char]) -> (b: bool)
    ensures
        b == is_control_token(t@),
{
    text_is(t, "|") || text_is(t, "||") || text_is(t, "&") || text_is(t, "&&") || text_is(t, ";")
}

fn redirect_chars(t: &[char]) -> (b: bool)
    ensures
        b == is_redirect_token(t@),
{
    let n = t.len();
    let mut k: usize = 0;
    while k < n && '0' <= t[k] && t[k] <= '9'
        invariant
            k <= n == t@.len(),
            forall|m: int| 0 <= m < k ==> '0' <= #[trigger] t@[m] <= '9',
        decreases n - k,
    {
        k = k + 1;
    }
    if k == n {
        assert forall|j: int| 0 <= j < t@.len() implies !((j == 0 || all_digits(t@.take(j))) && (
        #[trigger] t@.skip(j) == "<"@ || t@.skip(j) == ">"@ || t@.skip(j) == ">>"@ || t@.skip(j)
            == ">&"@)) by {
            reveal_strlit("<");
            reveal_strlit(">");
            reveal_strlit(">>");
            reveal_strlit(">&");
            assert(t@.skip(j)[0] == t@[j]);
        }
        return false;
    }
    let rest = sub_chars(t, k, n);
    let r = text_is(rest.as_slice(), "<") || text_is(rest.as_slice(), ">") || text_is(
        rest.as_slice(),
        ">>",
    ) || text_is(rest.as_slice(), ">&");
    proof {
        assert(rest@ =~= t@.skip(k as int));
        if k > 0 {
            assert(all_digits(t@.take(k as int)));
        }
        assert forall|j: int| 0 <= j < t@.len() && j != k implies !((j == 0 || all_digits(
            t@.take(j),
        )) && (#[trigger] t@.skip(j) == "<"@ || t@.skip(j) == ">"@ || t@.skip(j) == ">>"@
            || t@.skip(j) == ">&"@)) by {
            reveal_strlit("<");
            reveal_strlit(">");
            reveal_strlit(">>");
            reveal_strlit(">&");
            if j < k {
                assert(t@.skip(j)[0] == t@[j]);
            } else {
                if k > 0 || j > 0 {
                    assert(t@.take(j)[k as int] == t@[k as int]);
                }
            }
        }
    }
    r
}

/// The path candidates of a command line run in `cwd`: each argument that resolves to a
/// path (see [`terminal_resolve_candidate_path`]), with whether it was written as an
/// absolute path. Command words, shell operators, the descriptor after `>&` and virtual
/// devices are not candidates.
pub fn terminal_analyze_command(
    cwd: &str,
    command: &str,
    shell_kind: &str,
    platform: HostPlatform,
) -> (out: Vec<TerminalCommandPathCandidate>)
    ensures
        out@.map_values(|c: TerminalCommandPathCandidate| c@) == command_candidates(
            cwd@,
            command@,
            shell_kind@,
            platform,
        ),
{
    let cs = chars_of(command);
    let tokens = lex_chars(cs.as_slice());
    let cwd_chars = chars_of(cwd);
    let ghost toks = lex(command@);
    let mut out: Vec<TerminalCommandPathCandidate> = Vec::new();
    let mut at_command = true;
    let mut skip_next = false;
    let mut i: usize = 0;
    while i < tokens.len()
        invariant
            i <= tokens@.len(),
            views(tokens@) == toks,
            cwd_chars@ == cwd@,
            command_candidates(cwd@, command@, shell_kind@, platform) == out@.map_values(
                |c: TerminalCommandPathCandidate| c@,
            ) + candidates_from(toks, i as int, at_command, skip_next, cwd@, shell_kind@, platform),
        decreases tokens@.len() - i,
    {
        let t = tokens[i].as_slice();
        assert(toks[i as int] == t@);
        let ghost before = out@.map_values(|c: TerminalCommandPathCandidate| c@);
        if skip_next {
            skip_next = false;
        } else if control_chars(t) {
            at_command = true;
        } else if redirect_chars(t) {
            skip_next = t[t.len() - 1] == '&';
        } else if at_command || virtual_sink_chars(unquote_chars(t).as_slice(), shell_kind) {
            at_command = false;
        } else {
            match resolve_chars(cwd_chars.as_slice(), t, platform) {
                Some(p) => {
                    let abs = raw_absolute_chars(t, platform);
                    out.push(TerminalCommandPathCandidate { path: string_of(p.as_slice()), is_absolute: abs });
                    assert(out@.map_values(|c: TerminalCommandPathCandidate| c@) =~= before.push(
                        CandidateView { path: p@, is_absolute: abs },
                    ));
                },
                None => {},
            }
        }
        i = i + 1;
    }
    assert(out@.map_values(|c: TerminalCommandPathCandidate| c@) =~= command_candidates(
        cwd@,
        command@,
        shell_kind@,
        platform,
    ));
    out
}

/// The paths without those that an earlier path already stands for (by
/// [`path_compare_key`]); the first of each is kept, in order.
pub fn terminal_dedup_paths(paths: Vec<String>, platform: HostPlatform) -> (out: Vec<String>)
    ensures
        crate::text::texts(out@) == dedup(crate::text::texts(paths@), platform),
{
    let ghost ps = crate::text::texts(paths@);
    let mut out: Vec<String> = Vec::new();
    let mut seen = StringHashSet::new();
    let mut i: usize = 0;
    assert(seen@ =~= compare_keys(crate::text::texts(out@), platform).to_set());
    while i < paths.len()
        invariant
            i <= paths@.len(),
            ps == crate::text::texts(paths@),
            crate::text::texts(out@) == dedup(ps.take(i as int), platform),
            seen@ == compare_keys(crate::text::texts(out@), platform).to_set(),
        decreases paths@.len() - i,
    {
        let p = chars_of(paths[i].as_str());
        let key = compare_key_chars(p.as_slice(), platform);
        proof {
            lemma_dedup_push(ps.take(i as int), ps[i as int], platform);
            assert(ps.take(i as int).push(ps[i as int]) =~= ps.take(i + 1));
        }
        let ghost old_out = crate::text::texts(out@);
        let ghost old_keys = compare_keys(old_out, platform);
        let fresh = seen.insert(string_of(key.as_slice()));
        if fresh {
            out.push(paths[i].clone());
            assert(crate::text::texts(out@) =~= old_out.push(ps[i as int]));
            assert(compare_keys(crate::text::texts(out@), platform) =~= old_keys.push(
                path_compare_key(ps[i as int], platform),
            ));
            let ghost kk = path_compare_key(ps[i as int], platform);
            assert forall|a: Seq<char>| #[trigger] seen@.contains(a) == old_keys.push(
                kk,
            ).contains(a) by {
                if old_keys.contains(a) {
                    let j = choose|j: int| 0 <= j < old_keys.len() && old_keys[j] == a;
                    assert(old_keys.push(kk)[j] == a);
                }
                if old_keys.push(kk).contains(a) {
                    let j = choose|j: int| 0 <= j < old_keys.len() + 1 && old_keys.push(kk)[j] == a;
                    if j < old_keys.len() {
                        assert(old_keys[j] == a);
                    }
                }
                if a == kk {
                    assert(old_keys.push(kk)[old_keys.len() as int] == kk);
                }
            }
            assert(seen@ =~= old_keys.push(kk).to_set());
        } else {
            assert(old_keys.contains(key@));
            assert(seen@ =~= old_keys.to_set());
        }
        i = i + 1;
    }
    assert(ps.take(paths@.len() as int) =~= ps);
    out
}

/// The distinct paths a command line refers to, resolved against `cwd`, in order of first
/// mention.
pub fn terminal_collect_command_path_candidates(
    cwd: &str,
    command: &str,
    shell_kind: &str,
    platform: HostPlatform,
) -> (out: Vec<String>)
    ensures
        crate::text::texts(out@) == dedup(
            candidate_paths(command_candidates(cwd@, command@, shell_kind@, platform)),
            platform,
        ),
{
    let candidates = terminal_analyze_command(cwd, command, shell_kind, platform);
    let ghost cv = candidates@.map_values(|c: TerminalCommandPathCandidate| c@);
    let mut paths: Vec<String> = Vec::new();
    let mut i: usize = 0;
    while i < candidates.len()
        invariant
            i <= candidates@.len(),
            cv == candidates@.map_values(|c: TerminalCommandPathCandidate| c@),
            paths@.len() == i,
            crate::text::texts(paths@) == candidate_paths(cv).take(i as int),
        decreases candidates@.len() - i,
    {
        let ghost prev = paths@;
        paths.push(candidates[i].path.clone());
        proof {
            assert forall|k: int| 0 <= k < i + 1 implies crate::text::texts(paths@)[k]
                == candidate_paths(cv).take(i + 1)[k] by {
                if k < i {
                    assert(paths@[k] == prev[k]);
                    assert(crate::text::texts(prev)[k] == candidate_paths(cv).take(i as int)[k]);
                }
            }
        }
        i = i + 1;
        assert(crate::text::texts(paths@) =~= candidate_paths(cv).take(i as int));
    }
    assert(candidate_paths(cv).take(candidates@.len() as int) =~= candidate_paths(cv));
    terminal_dedup_paths(paths, platform)
}

} // verus!
