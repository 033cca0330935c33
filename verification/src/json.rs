//! Interpretation of the JSON configuration file. serde_json parses the
//! text and hands out what the document holds; that reading is a function
//! of the text alone, named `json_config_fields`. Which fields are read,
//! how a missing field falls back to its default, and when the file is
//! rejected is decided and verified here.
use crate::config::Config;
use crate::config::StartupError;
use crate::config::default_address;
use vstd::prelude::*;

verus! {

#[verifier::external_type_specification]
#[verifier::external_body]
pub struct ExJsonError(serde_json::Error);

/// The JSON reading of the configuration text: `None` when the text is not
/// a JSON object; otherwise the `address` and `debug` fields, each `None`
/// when absent, `Some(None)` when present with another type, and
/// `Some(Some(v))` for a well-typed value. A function of the text alone.
pub uninterp spec fn json_config_fields(text: Seq<char>) -> Option<
    (Option<Option<Seq<char>>>, Option<Option<bool>>),
>;

/// The raw fields as [`json_config_fields`] speaks of them: the field text
/// taken to its view.
pub open spec fn fields_view(a: Option<Option<String>>, d: Option<Option<bool>>) -> (
    Option<Option<Seq<char>>>,
    Option<Option<bool>>,
) {
    (
        match a {
            Option::None => Option::None,
            Option::Some(Option::None) => Option::Some(Option::None),
            Option::Some(Option::Some(s)) => Option::Some(Option::Some(s@)),
        },
        d,
    )
}

/// Relies on serde_json to read the configuration text:
/// `from_str::<Value>` parses it (`Err` exactly when it is not valid JSON),
/// `Value::is_object` tells an object from any other document,
/// `Value::get` looks each field up, and `Value::as_str` / `Value::as_bool`
/// tell a field's type and hand its value out. The whole reading depends on
/// the text alone and is what `json_config_fields` names; `Err` carries the
/// parser's error for its message.
#[verifier::external_body]
fn json_extract_fields(text: &str) -> (r: Result<
    Option<(Option<Option<String>>, Option<Option<bool>>)>,
    serde_json::Error,
>)
    ensures
        match r {
            Result::Ok(Option::Some((a, d))) => json_config_fields(text@) == Option::Some(
                fields_view(a, d),
            ),
            Result::Ok(Option::None) => json_config_fields(text@) is None,
            Result::Err(_) => json_config_fields(text@) is None,
        },
{
    let v: serde_json::Value = match serde_json::from_str(text) {
        Ok(v) => v,
        Err(e) => return Err(e),
    };
    if !v.is_object() {
        return Ok(None);
    }
    let address = v.get("address").map(|f| f.as_str().map(str::to_owned));
    let debug = v.get("debug").map(|f| f.as_bool());
    Ok(Some((address, debug)))
}

/// Relies on the Display implementation of serde_json::Error for the
/// parser's human-readable message.
#[verifier::external_body]
fn json_error_message(e: &serde_json::Error) -> (r: String) {
    e.to_string()
}

/// The fatal message when a field named `address` is not a string.
pub open spec fn address_type_message() -> Seq<char> {
    "field address must be a host:port string"@
}

/// The fatal message when a field named `debug` is not a boolean.
pub open spec fn debug_type_message() -> Seq<char> {
    "field debug must be a boolean"@
}

/// Build a `Config` from the two optional fields of the configuration
/// object. For each field, `None` means it was absent and the default
/// applies; `Some(None)` means it was present with the wrong type, which is
/// fatal; `Some(Some(v))` is its well-typed value. The `address` field is
/// examined first.
pub fn fields_to_config(address: Option<Option<String>>, debug: Option<Option<bool>>) -> (r:
    Result<Config, StartupError>)
    ensures
        match r {
            Result::Ok(c) => {
                &&& !(address matches Option::Some(Option::None))
                &&& !(debug matches Option::Some(Option::None))
                &&& c.address@ == match address {
                    Option::Some(Option::Some(a)) => a@,
                    _ => default_address(),
                }
                &&& c.debug == match debug {
                    Option::Some(Option::Some(b)) => b,
                    _ => false,
                }
            },
            Result::Err(StartupError::ConfigParseError { context }) => if address matches Option::Some(
                Option::None,
            ) {
                context@ == address_type_message()
            } else {
                (debug matches Option::Some(Option::None)) && context@ == debug_type_message()
            },
            Result::Err(_) => false,
        },
{
    let addr: String = match address {
        Option::Some(a) => match a {
            Option::Some(s) => s,
            Option::None => {
                return Result::Err(
                    StartupError::ConfigParseError {
                        context: "field address must be a host:port string".to_owned(),
                    },
                );
            },
        },
        Option::None => "0.0.0.0:8888".to_owned(),
    };
    let dbg: bool = match debug {
        Option::Some(b) => match b {
            Option::Some(x) => x,
            Option::None => {
                return Result::Err(
                    StartupError::ConfigParseError {
                        context: "field debug must be a boolean".to_owned(),
                    },
                );
            },
        },
        Option::None => false,
    };
    Result::Ok(Config { address: addr, debug: dbg })
}

/// Interpret `text` as the JSON configuration file: a JSON object with
/// optional fields `address` (a string) and `debug` (a boolean); a missing
/// field falls back to its default. Exactly the texts whose reading is a
/// well-typed object succeed, with the defaults applied; every failure —
/// text that is not a JSON object, or a field of the wrong type — is the
/// fatal `ConfigParseError`, so startup aborts before any socket is opened.
pub fn config_from_json(text: &str) -> (r: Result<Config, StartupError>)
    ensures
        match json_config_fields(text@) {
            Option::Some(f) => match r {
                Result::Ok(c) => {
                    &&& !(f.0 matches Option::Some(Option::None))
                    &&& !(f.1 matches Option::Some(Option::None))
                    &&& c.address@ == match f.0 {
                        Option::Some(Option::Some(av)) => av,
                        _ => default_address(),
                    }
                    &&& c.debug == match f.1 {
                        Option::Some(Option::Some(dv)) => dv,
                        _ => false,
                    }
                },
                Result::Err(StartupError::ConfigParseError { context }) => if f.0 matches Option::Some(
                    Option::None,
                ) {
                    context@ == address_type_message()
                } else {
                    (f.1 matches Option::Some(Option::None)) && context@ == debug_type_message()
                },
                Result::Err(_) => false,
            },
            Option::None => r is Err,
        },
        r matches Result::Err(e) ==> e is ConfigParseError,
{
    let fields = match json_extract_fields(text) {
        Result::Err(e) => {
            return Result::Err(
                StartupError::ConfigParseError { context: json_error_message(&e) },
            );
        },
        Result::Ok(Option::None) => {
            return Result::Err(
                StartupError::ConfigParseError {
                    context: "configuration must be a JSON object".to_owned(),
                },
            );
        },
        Result::Ok(Option::Some(f)) => f,
    };
    let (address, debug) = fields;
    proof {
        assert(json_config_fields(text@) == Option::Some(fields_view(address, debug)));
    }
    fields_to_config(address, debug)
}

} // verus!
