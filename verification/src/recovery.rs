//! Recovery of interrupted tool calls: the effect class a call is bound to,
//! and whether a recorded outcome is reused, the call re-executed, or the
//! call failed conservatively.

use vstd::prelude::*;
use crate::json::{json_string_at, string_field};
use crate::text::same_text;

verus! {

/// How often a tool's effect may happen.
#[derive(Clone, Copy, Debug, PartialEq, Eq, Structural)]
pub enum EffectClass {
    Pure,
    Idempotent,
    AtMostOnce,
}

/// Strictness rank of an effect class: a larger rank forbids more.
pub open spec fn effect_rank(class: EffectClass) -> int {
    match class {
        EffectClass::Pure => 0,
        EffectClass::Idempotent => 1,
        EffectClass::AtMostOnce => 2,
    }
}

/// The stricter of two effect classes.
pub open spec fn stricter(a: EffectClass, b: EffectClass) -> EffectClass {
    if effect_rank(a) >= effect_rank(b) { a } else { b }
}

/// What recovery does with a call that was interrupted.
#[derive(Clone, Copy, Debug, PartialEq, Eq, Structural)]
pub enum ToolRecoveryAction {
    Reuse,
    Reexecute,
    ConservativeFailure,
}

/// The recovery action: a recorded outcome is reused only under a matching
/// fingerprint; otherwise an at-most-once call fails conservatively and any
/// other call is executed again.
pub open spec fn recovery_action(
    effect_class: EffectClass,
    outcome_exists: bool,
    fingerprint_matches: bool,
) -> ToolRecoveryAction {
    if outcome_exists && fingerprint_matches {
        ToolRecoveryAction::Reuse
    } else if effect_class == EffectClass::AtMostOnce {
        ToolRecoveryAction::ConservativeFailure
    } else {
        ToolRecoveryAction::Reexecute
    }
}

/// Recovery honors the effect class; a recorded outcome is reused only under
/// a matching fingerprint within the same snapshot.
pub fn tool_recovery_action(
    effect_class: EffectClass,
    outcome_exists: bool,
    fingerprint_matches: bool,
) -> (action: ToolRecoveryAction)
    ensures
        action == recovery_action(effect_class, outcome_exists, fingerprint_matches),
{
    if outcome_exists && fingerprint_matches {
        ToolRecoveryAction::Reuse
    } else if effect_class == EffectClass::AtMostOnce {
        ToolRecoveryAction::ConservativeFailure
    } else {
        ToolRecoveryAction::Reexecute
    }
}

/// An at-most-once call is never executed a second time by recovery.
pub proof fn lemma_at_most_once_is_never_reexecuted(outcome_exists: bool, fingerprint_matches: bool)
    ensures
        recovery_action(EffectClass::AtMostOnce, outcome_exists, fingerprint_matches)
            != ToolRecoveryAction::Reexecute,
{
}

/// A recorded outcome under a different fingerprint is never reused.
pub proof fn lemma_mismatch_is_never_reused(effect_class: EffectClass, outcome_exists: bool)
    ensures
        recovery_action(effect_class, outcome_exists, false) != ToolRecoveryAction::Reuse,
{
}

// ---------------------------------------------------------------------------
// Bash commands that name exactly one operation
// ---------------------------------------------------------------------------

/// `char::is_control`: the Unicode general category `Cc`.
pub open spec fn is_control_char(c: char) -> bool {
    c <= '\u{1f}' || ('\u{7f}' <= c && c <= '\u{9f}')
}

/// Characters through which a shell script chains, redirects, substitutes or quotes.
pub open spec fn is_shell_syntax_char(c: char) -> bool {
    c == ';' || c == '&' || c == '|' || c == '<' || c == '>' || c == '$' || c == '`' || c == '\\'
        || c == '\'' || c == '"' || c == '(' || c == ')' || c == '{' || c == '}'
}

/// Whether a command holds a control or shell-syntax character.
pub open spec fn has_shell_syntax(command: Seq<char>) -> bool {
    exists|i: int| 0 <= i < command.len() && (is_control_char(#[trigger] command[i])
        || is_shell_syntax_char(command[i]))
}

/// The first index at or after `from` whose character is (or, with
/// `whitespace == false`, is not) whitespace; the length when there is none.
pub open spec fn scan_to(command: Seq<char>, from: int, whitespace: bool) -> int
    decreases command.len() - from,
{
    if from < 0 || from >= command.len() {
        command.len() as int
    } else if crate::text::is_whitespace_char(command[from]) == whitespace {
        from
    } else {
        scan_to(command, from + 1, whitespace)
    }
}

/// The first whitespace-separated word of a command.
pub open spec fn first_word(command: Seq<char>) -> Option<Seq<char>> {
    let start = scan_to(command, 0, false);
    if start >= command.len() {
        None
    } else {
        Some(command.subrange(start, scan_to(command, start, true)))
    }
}

/// The operation a bash command runs, when the command is one simple command
/// without shell syntax whose first word is no assignment.
pub open spec fn bash_operation_name(command: Seq<char>) -> Option<Seq<char>> {
    if has_shell_syntax(command) {
        None
    } else {
        match first_word(command) {
            Some(word) => if word.contains('=') { None } else { Some(word) },
            None => None,
        }
    }
}

fn char_is_control(c: char) -> (b: bool)
    ensures
        b == is_control_char(c),
{
    c <= '\u{1f}' || ('\u{7f}' <= c && c <= '\u{9f}')
}

fn char_is_shell_syntax(c: char) -> (b: bool)
    ensures
        b == is_shell_syntax_char(c),
{
    c == ';' || c == '&' || c == '|' || c == '<' || c == '>' || c == '$' || c == '`' || c == '\\'
        || c == '\'' || c == '"' || c == '(' || c == ')' || c == '{' || c == '}'
}

fn scan(command: &str, from: usize, whitespace: bool) -> (end: usize)
    requires
        from <= command@.len(),
    ensures
        end == scan_to(command@, from as int, whitespace),
        from <= end <= command@.len(),
{
    let n = command.unicode_len();
    let mut i = from;
    while i < n
        invariant
            from <= i <= n,
            n == command@.len(),
            scan_to(command@, from as int, whitespace) == scan_to(command@, i as int, whitespace),
        decreases n - i,
    {
        if crate::text::char_is_whitespace(command.get_char(i)) == whitespace {
            return i;
        }
        i = i + 1;
    }
    n
}

/// Bash accepts full shell scripts, including pipelines, control lists,
/// substitutions, redirections, assignments and quoted command names. Recovery
/// may inherit a declared class only for the smaller subset of single simple
/// commands whose executable is unambiguous: this returns that executable.
pub fn exact_single_bash_operation_name(command: &str) -> (name: Option<&str>)
    ensures
        match name {
            Some(word) => bash_operation_name(command@) == Some(word@),
            None => bash_operation_name(command@) is None,
        },
{
    let n = command.unicode_len();
    let mut i: usize = 0;
    while i < n
        invariant
            i <= n,
            n == command@.len(),
            forall|j: int| 0 <= j < i ==> !(is_control_char(#[trigger] command@[j])
                || is_shell_syntax_char(command@[j])),
        decreases n - i,
    {
        let c = command.get_char(i);
        if char_is_control(c) || char_is_shell_syntax(c) {
            assert(is_control_char(command@[i as int]) || is_shell_syntax_char(command@[i as int]));
            return None;
        }
        i = i + 1;
    }
    assert(!has_shell_syntax(command@));
    let start = scan(command, 0, false);
    if start >= n {
        assert(first_word(command@) is None);
        return None;
    }
    let end = scan(command, start, true);
    let word = command.substring_char(start, end);
    assert(first_word(command@) == Some(word@));
    let m = word.unicode_len();
    let mut k: usize = 0;
    while k < m
        invariant
            k <= m,
            !has_shell_syntax(command@),
            first_word(command@) == Some(word@),
            m == word@.len(),
            forall|j: int| 0 <= j < k ==> word@[j] != '=',
        decreases m - k,
    {
        if word.get_char(k) == '=' {
            assert(word@[k as int] == '=');
            return None;
        }
        k = k + 1;
    }
    Some(word)
}

// ---------------------------------------------------------------------------
// Effect classes from a manifest bind receipt
// ---------------------------------------------------------------------------

/// A tool bound directly to an operation.
#[derive(Debug)]
pub struct DirectToolBinding {
    pub tool_name: String,
    pub operation: String,
    pub effect_class: EffectClass,
}

/// One operation binding of a manifest.
#[derive(Debug)]
pub struct OperationBinding {
    pub name: String,
    pub effect_class: EffectClass,
    pub operations: Vec<String>,
    pub direct_tools: Vec<DirectToolBinding>,
}

/// A tool of a tool universe.
#[derive(Debug)]
pub struct UniverseTool {
    pub tool_name: String,
    pub effect_class: EffectClass,
}

/// A tool universe of a manifest.
#[derive(Debug)]
pub struct ToolUniverse {
    pub tools: Vec<UniverseTool>,
}

/// What a manifest bind recorded, as far as effect classes depend on it.
#[derive(Debug)]
pub struct AgentManifestBindReceipt {
    pub manifest_hash: String,
    pub operation_bindings: Vec<OperationBinding>,
    pub tool_universes: Vec<ToolUniverse>,
}

/// The name of the bash tool.
pub open spec fn bash_tool_name() -> Seq<char> {
    "bash"@
}

/// The class of the first directly bound tool named `tool` in `bindings[from..]`.
pub open spec fn direct_tool_class(bindings: Seq<OperationBinding>, tool: Seq<char>, from: int)
    -> Option<EffectClass>
    decreases bindings.len() - from,
{
    if from < 0 || from >= bindings.len() {
        None
    } else {
        match first_direct_tool(bindings[from].direct_tools@, tool, 0) {
            Some(class) => Some(class),
            None => direct_tool_class(bindings, tool, from + 1),
        }
    }
}

/// The class of the first tool named `tool` in `tools[from..]`.
pub open spec fn first_direct_tool(tools: Seq<DirectToolBinding>, tool: Seq<char>, from: int)
    -> Option<EffectClass>
    decreases tools.len() - from,
{
    if from < 0 || from >= tools.len() {
        None
    } else if tools[from].tool_name@ == tool {
        Some(tools[from].effect_class)
    } else {
        first_direct_tool(tools, tool, from + 1)
    }
}

/// The class of the first tool named `tool` among the universes from index `from`.
pub open spec fn universe_tool_class(universes: Seq<ToolUniverse>, tool: Seq<char>, from: int)
    -> Option<EffectClass>
    decreases universes.len() - from,
{
    if from < 0 || from >= universes.len() {
        None
    } else {
        match first_universe_tool(universes[from].tools@, tool, 0) {
            Some(class) => Some(class),
            None => universe_tool_class(universes, tool, from + 1),
        }
    }
}

/// The class of the first universe tool named `tool` in `tools[from..]`.
pub open spec fn first_universe_tool(tools: Seq<UniverseTool>, tool: Seq<char>, from: int)
    -> Option<EffectClass>
    decreases tools.len() - from,
{
    if from < 0 || from >= tools.len() {
        None
    } else if tools[from].tool_name@ == tool {
        Some(tools[from].effect_class)
    } else {
        first_universe_tool(tools, tool, from + 1)
    }
}

/// Whether a binding exposes operation `operation`.
pub open spec fn binds_operation(binding: OperationBinding, operation: Seq<char>) -> bool {
    exists|i: int| 0 <= i < binding.operations.len() && #[trigger] binding.operations@[i]@ == operation
}

/// The strictest class among the first `k` bindings that expose `operation`.
pub open spec fn operation_class_prefix(bindings: Seq<OperationBinding>, operation: Seq<char>, k: int)
    -> Option<EffectClass>
    decreases k,
{
    if k <= 0 {
        None
    } else {
        let before = operation_class_prefix(bindings, operation, k - 1);
        if binds_operation(bindings[k - 1], operation) {
            match before {
                Some(c) => Some(stricter(c, bindings[k - 1].effect_class)),
                None => Some(bindings[k - 1].effect_class),
            }
        } else {
            before
        }
    }
}

/// The effect class a receipt gives a tool call: a directly bound tool's
/// class, else a universe tool's class, else the strictest class among the
/// bindings that expose the call's operation (the tool's name, or for bash the
/// single operation its command names), else at-most-once.
pub open spec fn receipt_effect_class(
    receipt: AgentManifestBindReceipt,
    tool: Seq<char>,
    bash_command: Option<Seq<char>>,
) -> EffectClass {
    match direct_tool_class(receipt.operation_bindings@, tool, 0) {
        Some(class) => class,
        None => match universe_tool_class(receipt.tool_universes@, tool, 0) {
            Some(class) => class,
            None => {
                let operation = if tool == bash_tool_name() {
                    match bash_command {
                        Some(command) => bash_operation_name(command),
                        None => None,
                    }
                } else {
                    Some(tool)
                };
                match operation {
                    Some(op) => match operation_class_prefix(
                        receipt.operation_bindings@,
                        op,
                        receipt.operation_bindings.len() as int,
                    ) {
                        Some(class) => class,
                        None => EffectClass::AtMostOnce,
                    },
                    None => EffectClass::AtMostOnce,
                }
            },
        },
    }
}

fn find_direct_tool(tools: &Vec<DirectToolBinding>, tool: &str) -> (class: Option<EffectClass>)
    ensures
        class == first_direct_tool(tools@, tool@, 0),
{
    let mut i: usize = 0;
    while i < tools.len()
        invariant
            i <= tools.len(),
            first_direct_tool(tools@, tool@, 0) == first_direct_tool(tools@, tool@, i as int),
        decreases tools.len() - i,
    {
        if same_text(tools[i].tool_name.as_str(), tool) {
            return Some(tools[i].effect_class);
        }
        i = i + 1;
    }
    None
}

fn find_universe_tool(tools: &Vec<UniverseTool>, tool: &str) -> (class: Option<EffectClass>)
    ensures
        class == first_universe_tool(tools@, tool@, 0),
{
    let mut i: usize = 0;
    while i < tools.len()
        invariant
            i <= tools.len(),
            first_universe_tool(tools@, tool@, 0) == first_universe_tool(tools@, tool@, i as int),
        decreases tools.len() - i,
    {
        if same_text(tools[i].tool_name.as_str(), tool) {
            return Some(tools[i].effect_class);
        }
        i = i + 1;
    }
    None
}

fn exposes(binding: &OperationBinding, operation: &str) -> (b: bool)
    ensures
        b == binds_operation(*binding, operation@),
{
    let mut i: usize = 0;
    while i < binding.operations.len()
        invariant
            i <= binding.operations.len(),
            forall|j: int| 0 <= j < i ==> #[trigger] binding.operations@[j]@ != operation@,
        decreases binding.operations.len() - i,
    {
        if same_text(binding.operations[i].as_str(), operation) {
            return true;
        }
        i = i + 1;
    }
    false
}

fn stricter_class(a: EffectClass, b: EffectClass) -> (c: EffectClass)
    ensures
        c == stricter(a, b),
{
    let ra: u8 = match a {
        EffectClass::Pure => 0,
        EffectClass::Idempotent => 1,
        EffectClass::AtMostOnce => 2,
    };
    let rb: u8 = match b {
        EffectClass::Pure => 0,
        EffectClass::Idempotent => 1,
        EffectClass::AtMostOnce => 2,
    };
    if ra >= rb { a } else { b }
}

/// The effect class a receipt gives a call of `tool_name`, where `bash_command`
/// is the `command` argument of a bash call.
pub fn effect_class_for_tool(
    receipt: &AgentManifestBindReceipt,
    tool_name: &str,
    bash_command: Option<&str>,
) -> (class: EffectClass)
    ensures
        class == receipt_effect_class(
            *receipt,
            tool_name@,
            match bash_command {
                Some(c) => Some(c@),
                None => None,
            },
        ),
{
    let bindings = &receipt.operation_bindings;
    let mut i: usize = 0;
    while i < bindings.len()
        invariant
            i <= bindings.len(),
            *bindings == receipt.operation_bindings,
            direct_tool_class(bindings@, tool_name@, 0) == direct_tool_class(
                bindings@,
                tool_name@,
                i as int,
            ),
        decreases bindings.len() - i,
    {
        match find_direct_tool(&bindings[i].direct_tools, tool_name) {
            Some(class) => {
                return class;
            },
            None => {},
        }
        i = i + 1;
    }
    let universes = &receipt.tool_universes;
    let mut u: usize = 0;
    while u < universes.len()
        invariant
            u <= universes.len(),
            *bindings == receipt.operation_bindings,
            *universes == receipt.tool_universes,
            direct_tool_class(bindings@, tool_name@, 0) is None,
            universe_tool_class(universes@, tool_name@, 0) == universe_tool_class(
                universes@,
                tool_name@,
                u as int,
            ),
        decreases universes.len() - u,
    {
        match find_universe_tool(&universes[u].tools, tool_name) {
            Some(class) => {
                return class;
            },
            None => {},
        }
        u = u + 1;
    }
    proof {
        reveal_strlit("bash");
    }
    let operation: Option<&str> = if same_text(tool_name, "bash") {
        match bash_command {
            Some(command) => exact_single_bash_operation_name(command),
            None => None,
        }
    } else {
        Some(tool_name)
    };
    let operation = match operation {
        Some(op) => op,
        None => {
            return EffectClass::AtMostOnce;
        },
    };
    let mut strictest: Option<EffectClass> = None;
    let mut k: usize = 0;
    while k < bindings.len()
        invariant
            k <= bindings.len(),
            strictest == operation_class_prefix(bindings@, operation@, k as int),
        decreases bindings.len() - k,
    {
        if exposes(&bindings[k], operation) {
            strictest = match strictest {
                Some(c) => Some(stricter_class(c, bindings[k].effect_class)),
                None => Some(bindings[k].effect_class),
            };
        }
        k = k + 1;
    }
    match strictest {
        Some(class) => class,
        None => EffectClass::AtMostOnce,
    }
}

/// The command a call's arguments give to effect classification: for bash,
/// the string under `command`; for other tools, none.
pub open spec fn bash_command_of(tool_name: Seq<char>, arguments: serde_json::Value) -> Option<Seq<char>> {
    if tool_name == bash_tool_name() {
        json_string_at(arguments, "command"@)
    } else {
        None
    }
}

/// The effect class a receipt gives a tool call with JSON `arguments`. Only a
/// bash call reads its arguments, and only the string under `command`.
pub fn effect_class_from_bind_receipt(
    receipt: &AgentManifestBindReceipt,
    tool_name: &str,
    arguments: &serde_json::Value,
) -> (class: EffectClass)
    ensures
        class == receipt_effect_class(*receipt, tool_name@, bash_command_of(tool_name@, *arguments)),
{
    proof {
        reveal_strlit("bash");
    }
    let command = if same_text(tool_name, "bash") {
        string_field(arguments, "command")
    } else {
        None
    };
    let class = match &command {
        Some(c) => effect_class_for_tool(receipt, tool_name, Some(c.as_str())),
        None => effect_class_for_tool(receipt, tool_name, None),
    };
    class
}

} // verus!
