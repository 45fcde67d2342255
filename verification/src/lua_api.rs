//! What the scripting layer decides outside the interpreter: identifiers of script-created
//! entities, and the text shown for a value a script returns.

use crate::numfmt::{format_i64, signed_decimal};
use crate::text::to_owned_string;
use crate::utils::{parent_of, path_parent};
use vstd::prelude::*;
use vstd::string::StringExecFns;

verus! {

/// Whether `c` is a lowercase hexadecimal digit.
pub open spec fn is_lower_hex(c: char) -> bool {
    ('0' <= c && c <= '9') || ('a' <= c && c <= 'f')
}

/// Whether `s` is a UUID in hyphenated lowercase form: 36 characters, hyphens at positions
/// 8, 13, 18 and 23, lowercase hexadecimal digits elsewhere.
pub open spec fn is_hyphenated_uuid(s: Seq<char>) -> bool {
    &&& s.len() == 36
    &&& forall|i: int|
        0 <= i < 36 ==> if i == 8 || i == 13 || i == 18 || i == 23 {
            s[i] == '-'
        } else {
            is_lower_hex(#[trigger] s[i])
        }
}

/// `uuid::Uuid::new_v4().to_string()`: a random version-4 UUID, written by its `Display`
/// in hyphenated lowercase form. Which UUID comes is chance; only its form is stated.
#[verifier::external_body]
fn random_uuid_text() -> (r: String)
    ensures
        is_hyphenated_uuid(r@),
{
    uuid::Uuid::new_v4().to_string()
}

/// The identifier of a script-created entity for the UUID text `uuid`: `entity_` then the
/// UUID.
pub fn entity_id_from(uuid: &str) -> (r: String)
    ensures
        r@ == "entity_"@ + uuid@,
{
    let mut s = to_owned_string("entity_");
    s.append(uuid);
    s
}

/// A fresh identifier for a script-created entity: `entity_` and a random UUID.
pub fn new_entity_id() -> (r: String)
    ensures
        r@.len() == 43,
        r@.take(7) == "entity_"@,
        is_hyphenated_uuid(r@.skip(7)),
{
    let u = random_uuid_text();
    let r = entity_id_from(u.as_str());
    proof {
        reveal_strlit("entity_");
        assert(r@.take(7) =~= "entity_"@);
        assert(r@.skip(7) =~= u@);
    }
    r
}

/// The module search path for scripts in directory `dir`: `{dir}/?.lua;{dir}/?/init.lua`.
pub open spec fn search_path_of(dir: Seq<char>) -> Seq<char> {
    dir + "/?.lua;"@ + dir + "/?/init.lua"@
}

/// The module search path set before running the script at `script_path`: modules are
/// looked up beside the script, or in `current_dir` when the path has no parent.
pub fn script_search_path(script_path: &str, current_dir: String) -> (r: String)
    ensures
        r@ == search_path_of(
            match parent_of(script_path@) {
                Some(p) => p,
                None => current_dir@,
            },
        ),
{
    let dir = match path_parent(script_path) {
        Some(p) => p,
        None => current_dir,
    };
    let mut s = to_owned_string(dir.as_str());
    s.append("/?.lua;");
    s.append(dir.as_str());
    s.append("/?/init.lua");
    s
}

/// A value returned by a script, with what only the interpreter can write already written.
#[derive(Clone, Debug)]
pub enum ScriptValue {
    /// `nil`.
    Nil,
    /// A boolean.
    Boolean(bool),
    /// An integer.
    Integer(i64),
    /// A floating-point number, as the number's own text.
    Number(String),
    /// A string.
    Text(String),
    /// A table, as JSON text.
    Table(String),
    /// Any other value, as its debug text.
    Other(String),
}

/// The text shown for a script's return value.
pub open spec fn rendered(v: ScriptValue) -> Seq<char> {
    match v {
        ScriptValue::Nil => "nil"@,
        ScriptValue::Boolean(b) => if b { "true"@ } else { "false"@ },
        ScriptValue::Integer(i) => signed_decimal(i as int),
        ScriptValue::Number(t) => t@,
        ScriptValue::Text(t) => t@,
        ScriptValue::Table(t) => t@,
        ScriptValue::Other(t) => t@,
    }
}

/// The text shown for a script's return value: `nil`, `true` or `false`, an integer in
/// decimal, or the value's own text.
pub fn render_script_value(v: ScriptValue) -> (r: String)
    ensures
        r@ == rendered(v),
{
    match v {
        ScriptValue::Nil => to_owned_string("nil"),
        ScriptValue::Boolean(b) => if b {
            to_owned_string("true")
        } else {
            to_owned_string("false")
        },
        ScriptValue::Integer(i) => format_i64(i),
        ScriptValue::Number(t) => t,
        ScriptValue::Text(t) => t,
        ScriptValue::Table(t) => t,
        ScriptValue::Other(t) => t,
    }
}

} // verus!
