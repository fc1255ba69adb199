//! JSON values as text: the compact form `serde_json` writes, and the
//! Rust expression that constructs a `serde_json::Value` at run time.

use vstd::prelude::*;
use vstd::string::{StrSliceExecFns, StringExecFns};

use crate::defaults::{comma_joined, decimal_u64, signed_decimal, signed_decimal_text};
use crate::finalize::decimal;
use crate::json::{json_of, Json, JsonMember, JsonNum, JsonNumber, JsonValue};
use crate::render::comma_list;
use crate::syntax::{quoted, spec_quoted};

verus! {

/// The lowercase hexadecimal digit of `d`.
pub open spec fn hex_digit(d: nat) -> Seq<char> {
    if d < 10 {
        decimal(d)
    } else if d == 10 {
        "a"@
    } else if d == 11 {
        "b"@
    } else if d == 12 {
        "c"@
    } else if d == 13 {
        "d"@
    } else if d == 14 {
        "e"@
    } else {
        "f"@
    }
}

/// How a JSON string writes character `c`: a quote, a backslash, and the
/// control characters escaped (the common ones by letter, the rest as
/// `\u00XX`); every other character as itself.
pub open spec fn escape_char(c: char) -> Seq<char> {
    if c == '"' {
        "\\\""@
    } else if c == '\\' {
        "\\\\"@
    } else if c == '\n' {
        "\\n"@
    } else if c == '\r' {
        "\\r"@
    } else if c == '\t' {
        "\\t"@
    } else if c == '\x08' {
        "\\b"@
    } else if c == '\x0c' {
        "\\f"@
    } else if (c as u32) < 0x20 {
        "\\u00"@ + hex_digit(((c as u32) / 16) as nat) + hex_digit(((c as u32) % 16) as nat)
    } else {
        seq![c]
    }
}

/// The characters of `s`, each as a JSON string writes it.
pub open spec fn escaped(s: Seq<char>) -> Seq<char>
    decreases s.len(),
{
    if s.len() == 0 {
        Seq::empty()
    } else {
        escaped(s.drop_last()) + escape_char(s.last())
    }
}

/// `s` as a JSON string literal.
pub open spec fn string_text(s: Seq<char>) -> Seq<char> {
    "\""@ + escaped(s) + "\""@
}

/// A number as JSON writes it.
pub open spec fn num_text(n: JsonNum) -> Seq<char> {
    match n {
        JsonNum::Pos(u) => decimal(u as nat),
        JsonNum::Neg(i) => signed_decimal(i as int),
        JsonNum::Other(t) => t,
    }
}

/// `j` in compact JSON: no space anywhere, members in order.
pub open spec fn json_text(j: Json) -> Seq<char>
    decreases j, 1nat,
{
    match j {
        Json::Null => "null"@,
        Json::Bool(b) => if b {
            "true"@
        } else {
            "false"@
        },
        Json::Number(n) => num_text(n),
        Json::Text(t) => string_text(t),
        Json::Arr(items) => {
            proof {
                assert(decreases_to!(j => items));
            }
            "["@ + comma_joined(item_texts(items)) + "]"@
        },
        Json::Obj(ms) => {
            proof {
                assert(decreases_to!(j => ms));
            }
            "{"@ + comma_joined(member_texts(ms)) + "}"@
        },
    }
}

/// The texts of array items.
pub open spec fn item_texts(items: Seq<Json>) -> Seq<Seq<char>>
    decreases items, 0nat,
{
    Seq::new(
        items.len(),
        |i: int|
            if 0 <= i < items.len() {
                json_text(items[i])
            } else {
                Seq::empty()
            },
    )
}

/// The texts of object members: each key, a colon, and the value.
pub open spec fn member_texts(ms: Seq<(Seq<char>, Json)>) -> Seq<Seq<char>>
    decreases ms, 0nat,
{
    Seq::new(
        ms.len(),
        |i: int|
            if 0 <= i < ms.len() {
                proof {
                    assert(decreases_to!(ms[i] => ms[i].1));
                }
                string_text(ms[i].0) + ":"@ + json_text(ms[i].1)
            } else {
                Seq::empty()
            },
    )
}

fn hex_text(d: u32) -> (r: &'static str)
    requires
        d < 16,
    ensures
        r@ == hex_digit(d as nat),
{
    proof {
        reveal_strlit("0");
        reveal_strlit("1");
        reveal_strlit("2");
        reveal_strlit("3");
        reveal_strlit("4");
        reveal_strlit("5");
        reveal_strlit("6");
        reveal_strlit("7");
        reveal_strlit("8");
        reveal_strlit("9");
    }
    if d == 0 {
        "0"
    } else if d == 1 {
        "1"
    } else if d == 2 {
        "2"
    } else if d == 3 {
        "3"
    } else if d == 4 {
        "4"
    } else if d == 5 {
        "5"
    } else if d == 6 {
        "6"
    } else if d == 7 {
        "7"
    } else if d == 8 {
        "8"
    } else if d == 9 {
        "9"
    } else if d == 10 {
        "a"
    } else if d == 11 {
        "b"
    } else if d == 12 {
        "c"
    } else if d == 13 {
        "d"
    } else if d == 14 {
        "e"
    } else {
        "f"
    }
}

/// `s` as a JSON string literal.
pub fn string_literal(s: &str) -> (r: String)
    ensures
        r@ == string_text(s@),
{
    let n = s.unicode_len();
    let mut out = String::new();
    let mut i: usize = 0;
    while i < n
        invariant
            n == s@.len(),
            i <= n,
            out@ == escaped(s@.take(i as int)),
        decreases n - i,
    {
        let c = s.get_char(i);
        proof {
            assert(s@.take(i + 1).drop_last() =~= s@.take(i as int));
            assert(s@.take(i + 1).last() == c);
        }
        if c == '"' {
            out.append("\\\"");
        } else if c == '\\' {
            out.append("\\\\");
        } else if c == '\n' {
            out.append("\\n");
        } else if c == '\r' {
            out.append("\\r");
        } else if c == '\t' {
            out.append("\\t");
        } else if c == '\x08' {
            out.append("\\b");
        } else if c == '\x0c' {
            out.append("\\f");
        } else if (c as u32) < 0x20 {
            out.append("\\u00");
            out.append(hex_text((c as u32) / 16));
            out.append(hex_text((c as u32) % 16));
        } else {
            let one = s.substring_char(i, i + 1);
            proof {
                assert(one@ =~= seq![c]);
            }
            out.append(one);
        }
        i = i + 1;
    }
    proof {
        assert(s@.take(n as int) =~= s@);
    }
    "\"".to_owned().concat(out.as_str()).concat("\"")
}

fn number_text(n: &JsonNumber) -> (r: String)
    ensures
        r@ == num_text(crate::json::num_of(*n)),
{
    match n {
        JsonNumber::PosInt(u) => decimal_u64(*u),
        JsonNumber::NegInt(i) => signed_decimal_text(*i),
        JsonNumber::Float(t) => t.clone(),
    }
}

/// `v` in compact JSON, as `serde_json` writes it: no space anywhere,
/// object members in their order.
pub fn json_value_text(v: &JsonValue) -> (r: String)
    ensures
        r@ == json_text(json_of(*v)),
    decreases v,
{
    match v {
        JsonValue::Null => "null".to_owned(),
        JsonValue::Bool(b) => if *b {
            "true".to_owned()
        } else {
            "false".to_owned()
        },
        JsonValue::Number(n) => number_text(n),
        JsonValue::String(t) => string_literal(t.as_str()),
        JsonValue::Array(items) => {
            let ghost j = json_of(*v);
            let ghost parts = Seq::new(
                items@.len(),
                |i: int| json_text(json_of(items@[i])),
            );
            let mut out = String::new();
            let mut i: usize = 0;
            while i < items.len()
                invariant
                    i <= items@.len(),
                    *v == JsonValue::Array(*items),
                    parts.len() == items@.len(),
                    forall|k: int| 0 <= k < items@.len() ==> #[trigger] parts[k] == json_text(json_of(items@[k])),
                    out@ == comma_joined(parts.take(i as int)),
                decreases items@.len() - i,
            {
                proof {
                    vstd::std_specs::vec::axiom_vec_index_decreases(*items, i as int);
                    assert(decreases_to!(*v => (*v)->Array_0));
                }
                let t = json_value_text(&items[i]);
                proof {
                    assert(parts.take(i + 1).drop_last() =~= parts.take(i as int));
                    assert(parts.take(i + 1).last() == t@);
                }
                if i == 0 {
                    out = t;
                    proof {
                        assert(parts.take(1)[0] == t@);
                    }
                } else {
                    out.append(",");
                    out.append(t.as_str());
                }
                i = i + 1;
            }
            proof {
                assert(parts.take(items@.len() as int) =~= parts);
                let arr = crate::json::arr_of(items@);
                assert(j == Json::Arr(arr));
                assert(item_texts(arr) =~= parts);
            }
            "[".to_owned().concat(out.as_str()).concat("]")
        },
        JsonValue::Object(ms) => {
            let ghost j = json_of(*v);
            let ghost parts = Seq::new(
                ms@.len(),
                |i: int| string_text(ms@[i].key@) + ":"@ + json_text(json_of(ms@[i].value)),
            );
            let mut out = String::new();
            let mut i: usize = 0;
            while i < ms.len()
                invariant
                    i <= ms@.len(),
                    *v == JsonValue::Object(*ms),
                    parts.len() == ms@.len(),
                    forall|k: int| 0 <= k < ms@.len() ==> #[trigger] parts[k] == string_text(ms@[k].key@) + ":"@ + json_text(json_of(ms@[k].value)),
                    out@ == comma_joined(parts.take(i as int)),
                decreases ms@.len() - i,
            {
                proof {
                    vstd::std_specs::vec::axiom_vec_index_decreases(*ms, i as int);
                    assert(decreases_to!(*v => (*v)->Object_0));
                    assert(decreases_to!(ms[i as int] => ms[i as int].value));
                }
                let member: &JsonMember = &ms[i];
                let t = string_literal(member.key.as_str()).concat(":").concat(json_value_text(&member.value).as_str());
                proof {
                    assert(parts.take(i + 1).drop_last() =~= parts.take(i as int));
                    assert(parts.take(i + 1).last() == t@);
                }
                if i == 0 {
                    out = t;
                    proof {
                        assert(parts.take(1)[0] == t@);
                    }
                } else {
                    out.append(",");
                    out.append(t.as_str());
                }
                i = i + 1;
            }
            proof {
                assert(parts.take(ms@.len() as int) =~= parts);
                let obj = crate::json::obj_of(ms@);
                assert(j == Json::Obj(obj));
                assert(member_texts(obj) =~= parts);
            }
            "{".to_owned().concat(out.as_str()).concat("}")
        },
    }
}

/// The Rust expression that constructs `j` as a `serde_json::Value` at
/// run time: an integer through `Number::from` with its literal suffixed
/// `i64` when it fits an `i64` and `u64` otherwise, any other number
/// through `Number::from_f64`, strings and keys as string literals, and
/// arrays and objects element by element.
pub open spec fn value_expr_text(j: Json) -> Seq<char>
    decreases j, 1nat,
{
    match j {
        Json::Null => "::serde_json::Value::Null"@,
        Json::Bool(b) => "::serde_json::Value::Bool("@ + (if b {
            "true"@
        } else {
            "false"@
        }) + ")"@,
        Json::Number(n) => "::serde_json::Value::Number("@ + number_expr_text(n) + ")"@,
        Json::Text(t) => "::serde_json::Value::String("@ + spec_quoted(t) + ".to_string())"@,
        Json::Arr(items) => {
            proof {
                assert(decreases_to!(j => items));
            }
            "::serde_json::Value::Array(vec!["@ + comma_list(item_exprs(items)) + "])"@
        },
        Json::Obj(ms) => {
            proof {
                assert(decreases_to!(j => ms));
            }
            "::serde_json::Value::Object(::serde_json::Map::from_iter(["@ + comma_list(member_exprs(ms)) + "]))"@
        },
    }
}

/// The expression of a number.
pub open spec fn number_expr_text(n: JsonNum) -> Seq<char> {
    match n {
        JsonNum::Pos(u) => "::serde_json::Number::from("@ + decimal(u as nat) + (if u <= i64::MAX {
            "i64"@
        } else {
            "u64"@
        }) + ")"@,
        JsonNum::Neg(i) => "::serde_json::Number::from("@ + signed_decimal(i as int) + "i64)"@,
        JsonNum::Other(t) => "::serde_json::Number::from_f64("@ + t + "f64).unwrap()"@,
    }
}

/// The expressions of array items.
pub open spec fn item_exprs(items: Seq<Json>) -> Seq<Seq<char>>
    decreases items, 0nat,
{
    Seq::new(
        items.len(),
        |i: int|
            if 0 <= i < items.len() {
                value_expr_text(items[i])
            } else {
                Seq::empty()
            },
    )
}

/// The expressions of object members: each a key and value pair.
pub open spec fn member_exprs(ms: Seq<(Seq<char>, Json)>) -> Seq<Seq<char>>
    decreases ms, 0nat,
{
    Seq::new(
        ms.len(),
        |i: int|
            if 0 <= i < ms.len() {
                proof {
                    assert(decreases_to!(ms[i] => ms[i].1));
                }
                "("@ + spec_quoted(ms[i].0) + ".to_string(), "@ + value_expr_text(ms[i].1) + ")"@
            } else {
                Seq::empty()
            },
    )
}

fn number_expr(n: &JsonNumber) -> (r: String)
    ensures
        r@ == number_expr_text(crate::json::num_of(*n)),
{
    match n {
        JsonNumber::PosInt(u) => {
            let suffix = if *u <= 9223372036854775807u64 {
                "i64"
            } else {
                "u64"
            };
            "::serde_json::Number::from(".to_owned().concat(decimal_u64(*u).as_str()).concat(suffix).concat(")")
        },
        JsonNumber::NegInt(i) => "::serde_json::Number::from(".to_owned().concat(signed_decimal_text(*i).as_str()).concat(
            "i64)",
        ),
        JsonNumber::Float(t) => "::serde_json::Number::from_f64(".to_owned().concat(t.as_str()).concat("f64).unwrap()"),
    }
}

/// The Rust expression that constructs `v` as a `serde_json::Value` at
/// run time: what [`value_expr_text`] says.
pub fn value_expr(v: &JsonValue) -> (r: String)
    ensures
        r@ == value_expr_text(json_of(*v)),
    decreases v,
{
    match v {
        JsonValue::Null => "::serde_json::Value::Null".to_owned(),
        JsonValue::Bool(b) => "::serde_json::Value::Bool(".to_owned().concat(
            if *b {
                "true"
            } else {
                "false"
            },
        ).concat(")"),
        JsonValue::Number(n) => "::serde_json::Value::Number(".to_owned().concat(number_expr(n).as_str()).concat(")"),
        JsonValue::String(t) => "::serde_json::Value::String(".to_owned().concat(quoted(t.as_str()).as_str()).concat(
            ".to_string())",
        ),
        JsonValue::Array(items) => {
            let ghost parts = Seq::new(items@.len(), |i: int| value_expr_text(json_of(items@[i])));
            let mut out = String::new();
            let mut i: usize = 0;
            while i < items.len()
                invariant
                    i <= items@.len(),
                    *v == JsonValue::Array(*items),
                    parts.len() == items@.len(),
                    forall|k: int| 0 <= k < items@.len() ==> #[trigger] parts[k] == value_expr_text(json_of(items@[k])),
                    out@ == comma_list(parts.take(i as int)),
                decreases items@.len() - i,
            {
                proof {
                    vstd::std_specs::vec::axiom_vec_index_decreases(*items, i as int);
                    assert(decreases_to!(*v => (*v)->Array_0));
                }
                let t = value_expr(&items[i]);
                proof {
                    assert(parts.take(i + 1).drop_last() =~= parts.take(i as int));
                    assert(parts.take(i + 1).last() == t@);
                }
                if i == 0 {
                    out = t;
                    proof {
                        assert(parts.take(1)[0] == t@);
                    }
                } else {
                    out.append(", ");
                    out.append(t.as_str());
                }
                i = i + 1;
            }
            proof {
                assert(parts.take(items@.len() as int) =~= parts);
                assert(item_exprs(crate::json::arr_of(items@)) =~= parts);
            }
            "::serde_json::Value::Array(vec![".to_owned().concat(out.as_str()).concat("])")
        },
        JsonValue::Object(ms) => {
            let ghost parts = Seq::new(
                ms@.len(),
                |i: int| "("@ + spec_quoted(ms@[i].key@) + ".to_string(), "@ + value_expr_text(json_of(ms@[i].value)) + ")"@,
            );
            let mut out = String::new();
            let mut i: usize = 0;
            while i < ms.len()
                invariant
                    i <= ms@.len(),
                    *v == JsonValue::Object(*ms),
                    parts.len() == ms@.len(),
                    forall|k: int| 0 <= k < ms@.len() ==> #[trigger] parts[k] == "("@ + spec_quoted(ms@[k].key@) + ".to_string(), "@
                        + value_expr_text(json_of(ms@[k].value)) + ")"@,
                    out@ == comma_list(parts.take(i as int)),
                decreases ms@.len() - i,
            {
                proof {
                    vstd::std_specs::vec::axiom_vec_index_decreases(*ms, i as int);
                    assert(decreases_to!(*v => (*v)->Object_0));
                    assert(decreases_to!(ms[i as int] => ms[i as int].value));
                }
                let member: &JsonMember = &ms[i];
                let t = "(".to_owned().concat(quoted(member.key.as_str()).as_str()).concat(".to_string(), ").concat(
                    value_expr(&member.value).as_str(),
                ).concat(")");
                proof {
                    assert(parts.take(i + 1).drop_last() =~= parts.take(i as int));
                    assert(parts.take(i + 1).last() == t@);
                }
                if i == 0 {
                    out = t;
                    proof {
                        assert(parts.take(1)[0] == t@);
                    }
                } else {
                    out.append(", ");
                    out.append(t.as_str());
                }
                i = i + 1;
            }
            proof {
                assert(parts.take(ms@.len() as int) =~= parts);
                assert(member_exprs(crate::json::obj_of(ms@)) =~= parts);
            }
            "::serde_json::Value::Object(::serde_json::Map::from_iter([".to_owned().concat(out.as_str()).concat("]))")
        },
    }
}

} // verus!
