//! Attribute keys whose values the privacy policy treats specially.

use vstd::prelude::*;
use vstd::string::{StringExecFns, StringSliceAdditionalSpecFns};
use vstd::utf8::encode_utf8;

use crate::bytes::{has_prefix, has_suffix};
use crate::bytes::ascii_chars;
use crate::otlp::entries::hex_encode;
use crate::sha256::{sha256_hex, sha256_of};
use crate::strings::{ascii_lowercase, ascii_lowercase_string, str_ends_with, str_eq, str_starts_with, trim_chars, trim_str};

verus! {

/// Prompt and completion content.
pub open spec fn prompt_content_key(key: Seq<char>) -> bool {
    ||| key == "gen_ai.input.messages"@
    ||| key == "gen_ai.output.messages"@
    ||| key == "gen_ai.system_instructions"@
    ||| key == "gen_ai.prompt"@
    ||| key == "gen_ai.completion"@
    ||| key == "gen_ai.prompt.template"@
    ||| key == "llm.prompts"@
    ||| key == "llm.completions"@
    ||| has_prefix(encode_utf8(key), "gen_ai.prompt.variable.".spec_bytes())
}

/// Tool call arguments, results and definitions.
pub open spec fn tool_content_key(key: Seq<char>) -> bool {
    ||| key == "gen_ai.tool.call.arguments"@
    ||| key == "gen_ai.tool.call.result"@
    ||| key == "gen_ai.tool.definitions"@
}

/// Shell and process command lines.
pub open spec fn command_content_key(key: Seq<char>) -> bool {
    ||| key == "process.command"@
    ||| key == "process.command_line"@
    ||| key == "shell.command"@
    ||| key == "command"@
}

/// Filesystem paths.
pub open spec fn path_key(key: Seq<char>) -> bool {
    ||| has_suffix(encode_utf8(key), ".path".spec_bytes())
    ||| key == "session.cwd"@
    ||| key == "codebase.root_path"@
    ||| key == "project.path"@
    ||| key == "cwd"@
    ||| key == "working_directory"@
}

/// E-mail addresses.
pub open spec fn email_key(key: Seq<char>) -> bool {
    ||| key == "email"@
    ||| has_suffix(encode_utf8(key), ".email".spec_bytes())
    ||| has_suffix(encode_utf8(key), "_email".spec_bytes())
}

/// User identities.
pub open spec fn user_identity_key(key: Seq<char>) -> bool {
    ||| key == "user.id"@
    ||| key == "user.name"@
    ||| key == "user.full_name"@
    ||| key == "user.email"@
    ||| key == "enduser.id"@
    ||| key == "enduser.role"@
    ||| key == "enduser.scope"@
    ||| key == "user_id"@
    ||| key == "username"@
}

pub fn is_prompt_content_key(key: &str) -> (r: bool)
    ensures
        r == prompt_content_key(key@),
{
    str_eq(key, "gen_ai.input.messages") || str_eq(key, "gen_ai.output.messages")
        || str_eq(key, "gen_ai.system_instructions") || str_eq(key, "gen_ai.prompt")
        || str_eq(key, "gen_ai.completion") || str_eq(key, "gen_ai.prompt.template")
        || str_eq(key, "llm.prompts") || str_eq(key, "llm.completions")
        || str_starts_with(key, "gen_ai.prompt.variable.")
}

pub fn is_tool_content_key(key: &str) -> (r: bool)
    ensures
        r == tool_content_key(key@),
{
    str_eq(key, "gen_ai.tool.call.arguments") || str_eq(key, "gen_ai.tool.call.result")
        || str_eq(key, "gen_ai.tool.definitions")
}

pub fn is_command_content_key(key: &str) -> (r: bool)
    ensures
        r == command_content_key(key@),
{
    str_eq(key, "process.command") || str_eq(key, "process.command_line") || str_eq(key, "shell.command")
        || str_eq(key, "command")
}

pub fn is_path_key(key: &str) -> (r: bool)
    ensures
        r == path_key(key@),
{
    str_ends_with(key, ".path") || str_eq(key, "session.cwd") || str_eq(key, "codebase.root_path")
        || str_eq(key, "project.path") || str_eq(key, "cwd") || str_eq(key, "working_directory")
}

pub fn is_email_key(key: &str) -> (r: bool)
    ensures
        r == email_key(key@),
{
    str_eq(key, "email") || str_ends_with(key, ".email") || str_ends_with(key, "_email")
}

pub fn is_user_identity_key(key: &str) -> (r: bool)
    ensures
        r == user_identity_key(key@),
{
    str_eq(key, "user.id") || str_eq(key, "user.name") || str_eq(key, "user.full_name")
        || str_eq(key, "user.email") || str_eq(key, "enduser.id") || str_eq(key, "enduser.role")
        || str_eq(key, "enduser.scope") || str_eq(key, "user_id") || str_eq(key, "username")
}


/// What the privacy policy lets through (every flag is an opt-in, but for `hash_email`).
#[derive(Debug, Clone, Copy, PartialEq, Eq)]
pub struct PrivacyPolicy {
    pub include_prompt_content: bool,
    pub include_tool_content: bool,
    pub include_command_content: bool,
    pub include_paths: bool,
    pub hash_email: bool,
    pub include_user_identity: bool,
}

/// What becomes of an attribute's value.
#[derive(Debug, Clone, Copy, PartialEq, Eq, Structural)]
pub enum AttributeTreatment {
    /// Replaced by `[REDACTED]`.
    Redacted,
    /// Replaced by the hash of the e-mail address.
    EmailHash,
    /// Kept, with its own text scrubbed.
    Kept,
}

/// The treatment of an attribute by its key, compared in ASCII lower case: content
/// and paths the policy leaves out are redacted, then e-mail addresses are hashed when
/// the policy asks, then user identities are redacted unless included.
pub open spec fn treatment_spec(key: Seq<char>, p: PrivacyPolicy) -> AttributeTreatment {
    let k = ascii_lowercase(key);
    if (prompt_content_key(k) && !p.include_prompt_content) || (tool_content_key(k) && !p.include_tool_content)
        || (command_content_key(k) && !p.include_command_content) || (path_key(k) && !p.include_paths) {
        AttributeTreatment::Redacted
    } else if email_key(k) && p.hash_email {
        AttributeTreatment::EmailHash
    } else if user_identity_key(k) && !p.include_user_identity {
        AttributeTreatment::Redacted
    } else {
        AttributeTreatment::Kept
    }
}

/// How the policy treats the attribute named `key`.
pub fn attribute_treatment(key: &str, policy: &PrivacyPolicy) -> (r: AttributeTreatment)
    ensures
        r == treatment_spec(key@, *policy),
{
    let lowered = ascii_lowercase_string(key);
    let k = lowered.as_str();
    if (is_prompt_content_key(k) && !policy.include_prompt_content) || (is_tool_content_key(k) && !policy.include_tool_content)
        || (is_command_content_key(k) && !policy.include_command_content) || (is_path_key(k) && !policy.include_paths) {
        AttributeTreatment::Redacted
    } else if is_email_key(k) && policy.hash_email {
        AttributeTreatment::EmailHash
    } else if is_user_identity_key(k) && !policy.include_user_identity {
        AttributeTreatment::Redacted
    } else {
        AttributeTreatment::Kept
    }
}

/// The stand-in for a value that is not stored.
pub open spec fn redacted() -> Seq<char> {
    "[REDACTED]"@
}

/// An e-mail attribute's stored form: `sha256:` and the digest of the address trimmed
/// and in ASCII lower case; `[REDACTED]` for a value that is not text or is blank.
pub open spec fn email_hash_spec(value: Option<Seq<char>>) -> Seq<char> {
    match value {
        None => redacted(),
        Some(v) => {
            let normalized = ascii_lowercase(trim_chars(v));
            if normalized.len() == 0 {
                redacted()
            } else {
                "sha256:"@ + ascii_chars(hex_encode(sha256_of(encode_utf8(normalized))))
            }
        },
    }
}

/// The hashed form of an e-mail attribute whose value is `value` when it is text.
pub fn email_hash(value: Option<&str>) -> (r: String)
    ensures
        r@ == email_hash_spec(match value { Some(v) => Some(v@), None => None }),
{
    proof {
        reveal_strlit("[REDACTED]");
        reveal_strlit("sha256:");
    }
    let text = match value {
        Some(v) => v,
        None => {
            return "[REDACTED]".to_owned();
        },
    };
    let normalized = ascii_lowercase_string(trim_str(text));
    if normalized.as_str().is_empty() {
        return "[REDACTED]".to_owned();
    }
    let mut out = "sha256:".to_owned();
    let digest = sha256_hex(normalized.as_str().as_bytes());
    out.append(digest.as_str());
    out
}

/// Prompt and completion content is redacted whenever the policy leaves prompt
/// content out: `gen_ai.input.messages`, `gen_ai.output.messages`,
/// `gen_ai.system_instructions`, `gen_ai.prompt`, `gen_ai.completion`,
/// `gen_ai.prompt.template`, `llm.prompts`, `llm.completions` and every
/// `gen_ai.prompt.variable.*` key, compared in ASCII lower case.
pub proof fn lemma_prompt_content_redacted(key: Seq<char>, p: PrivacyPolicy)
    requires
        !p.include_prompt_content,
        ({
            let k = ascii_lowercase(key);
            ||| k == "gen_ai.input.messages"@
            ||| k == "gen_ai.output.messages"@
            ||| k == "gen_ai.system_instructions"@
            ||| k == "gen_ai.prompt"@
            ||| k == "gen_ai.completion"@
            ||| k == "gen_ai.prompt.template"@
            ||| k == "llm.prompts"@
            ||| k == "llm.completions"@
            ||| has_prefix(encode_utf8(k), "gen_ai.prompt.variable.".spec_bytes())
        }),
    ensures
        treatment_spec(key, p) == AttributeTreatment::Redacted,
{
}

/// Tool call arguments, results and definitions are redacted whenever the policy
/// leaves tool content out.
pub proof fn lemma_tool_content_redacted(key: Seq<char>, p: PrivacyPolicy)
    requires
        !p.include_tool_content,
        ({
            let k = ascii_lowercase(key);
            ||| k == "gen_ai.tool.call.arguments"@
            ||| k == "gen_ai.tool.call.result"@
            ||| k == "gen_ai.tool.definitions"@
        }),
    ensures
        treatment_spec(key, p) == AttributeTreatment::Redacted,
{
}

/// Command lines are redacted whenever the policy leaves command content out.
pub proof fn lemma_command_content_redacted(key: Seq<char>, p: PrivacyPolicy)
    requires
        !p.include_command_content,
        ({
            let k = ascii_lowercase(key);
            ||| k == "process.command"@
            ||| k == "process.command_line"@
            ||| k == "shell.command"@
            ||| k == "command"@
        }),
    ensures
        treatment_spec(key, p) == AttributeTreatment::Redacted,
{
}

/// Filesystem paths are redacted whenever the policy leaves paths out: every key
/// ending in `.path`, and `session.cwd`, `codebase.root_path`, `project.path`, `cwd`,
/// `working_directory`.
pub proof fn lemma_paths_redacted(key: Seq<char>, p: PrivacyPolicy)
    requires
        !p.include_paths,
        ({
            let k = ascii_lowercase(key);
            ||| has_suffix(encode_utf8(k), ".path".spec_bytes())
            ||| k == "session.cwd"@
            ||| k == "codebase.root_path"@
            ||| k == "project.path"@
            ||| k == "cwd"@
            ||| k == "working_directory"@
        }),
    ensures
        treatment_spec(key, p) == AttributeTreatment::Redacted,
{
}

/// With all content and paths included, e-mail addresses (`email`, `*.email`,
/// `*_email`) are hashed when the policy asks for it.
pub proof fn lemma_emails_hashed(key: Seq<char>, p: PrivacyPolicy)
    requires
        p.include_prompt_content && p.include_tool_content && p.include_command_content && p.include_paths,
        p.hash_email,
        ({
            let k = ascii_lowercase(key);
            ||| k == "email"@
            ||| has_suffix(encode_utf8(k), ".email".spec_bytes())
            ||| has_suffix(encode_utf8(k), "_email".spec_bytes())
        }),
    ensures
        treatment_spec(key, p) == AttributeTreatment::EmailHash,
{
}

/// With all content and paths included and e-mail hashing off, user identities are
/// redacted unless the policy includes them.
pub proof fn lemma_user_identities_redacted(key: Seq<char>, p: PrivacyPolicy)
    requires
        p.include_prompt_content && p.include_tool_content && p.include_command_content && p.include_paths,
        !p.hash_email,
        !p.include_user_identity,
        ({
            let k = ascii_lowercase(key);
            ||| k == "user.id"@
            ||| k == "user.name"@
            ||| k == "user.full_name"@
            ||| k == "user.email"@
            ||| k == "enduser.id"@
            ||| k == "enduser.role"@
            ||| k == "enduser.scope"@
            ||| k == "user_id"@
            ||| k == "username"@
        }),
    ensures
        treatment_spec(key, p) == AttributeTreatment::Redacted,
{
}

/// A policy that includes everything and hashes nothing keeps every attribute.
pub proof fn lemma_permissive_policy_keeps_all(key: Seq<char>, p: PrivacyPolicy)
    requires
        p.include_prompt_content && p.include_tool_content && p.include_command_content && p.include_paths,
        !p.hash_email,
        p.include_user_identity,
    ensures
        treatment_spec(key, p) == AttributeTreatment::Kept,
{
}

/// Under any policy, an attribute whose key (in ASCII lower case) names no content,
/// path, e-mail address or user identity is kept.
pub proof fn lemma_ordinary_attributes_kept(key: Seq<char>, p: PrivacyPolicy)
    requires
        ({
            let k = ascii_lowercase(key);
            &&& k != "gen_ai.input.messages"@ && k != "gen_ai.output.messages"@
            &&& k != "gen_ai.system_instructions"@ && k != "gen_ai.prompt"@
            &&& k != "gen_ai.completion"@ && k != "gen_ai.prompt.template"@
            &&& k != "llm.prompts"@ && k != "llm.completions"@
            &&& !has_prefix(encode_utf8(k), "gen_ai.prompt.variable.".spec_bytes())
            &&& k != "gen_ai.tool.call.arguments"@ && k != "gen_ai.tool.call.result"@
            &&& k != "gen_ai.tool.definitions"@
            &&& k != "process.command"@ && k != "process.command_line"@
            &&& k != "shell.command"@ && k != "command"@
            &&& !has_suffix(encode_utf8(k), ".path".spec_bytes())
            &&& k != "session.cwd"@ && k != "codebase.root_path"@ && k != "project.path"@
            &&& k != "cwd"@ && k != "working_directory"@
            &&& k != "email"@
            &&& !has_suffix(encode_utf8(k), ".email".spec_bytes())
            &&& !has_suffix(encode_utf8(k), "_email".spec_bytes())
            &&& k != "user.id"@ && k != "user.name"@ && k != "user.full_name"@
            &&& k != "user.email"@ && k != "enduser.id"@ && k != "enduser.role"@
            &&& k != "enduser.scope"@ && k != "user_id"@ && k != "username"@
        }),
    ensures
        treatment_spec(key, p) == AttributeTreatment::Kept,
{
}

} // verus!
