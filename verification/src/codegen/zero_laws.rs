//! What the zero value written for a Go type is: a value of that type, so that
//! `return <zero>, err` compiles.
use vstd::prelude::*;

use crate::codegen::types::{go_type, zero_value};
use crate::text::{starts_with, trim};

verus! {

/// A Go type whose values may be `nil`: pointers, slices, maps, channels, functions and
/// interfaces (`error`, `any`).
pub open spec fn go_nilable(t: Seq<char>) -> bool {
    ||| t.len() > 0 && t[0] == '*'
    ||| starts_with(t, seq!['[', ']'])
    ||| starts_with(t, seq!['m', 'a', 'p', '['])
    ||| starts_with(t, seq!['c', 'h', 'a', 'n'])
    ||| starts_with(t, seq!['f', 'u', 'n', 'c'])
    ||| starts_with(t, seq!['i', 'n', 't', 'e', 'r', 'f', 'a', 'c', 'e'])
    ||| t == seq!['e', 'r', 'r', 'o', 'r']
    ||| t == seq!['a', 'n', 'y']
}

/// A Go string literal: text between double quotes.
pub open spec fn go_string_literal(z: Seq<char>) -> bool {
    z.len() >= 2 && z[0] == '"' && z.last() == '"'
}

/// The zero value is `nil` only for a type whose values may be `nil`; a `string`, a `bool`,
/// a number or a struct never gets `nil`.
pub proof fn law_nil_only_for_nilable_types(ty: Seq<char>)
    ensures
        zero_value(ty) == seq!['n', 'i', 'l'] ==> go_nilable(trim(go_type(ty))),
{
    reveal_strlit("string");
    reveal_strlit("bool");
    reveal_strlit("\"\"");
    reveal_strlit("false");
    reveal_strlit("0");
    reveal_strlit("nil");
    reveal_strlit("{}");
    reveal_strlit("*");
    reveal_strlit("[]");
    reveal_strlit("map[");
    reveal_strlit("func(");
    reveal_strlit("error");
    assert("string"@ =~= seq!['s', 't', 'r', 'i', 'n', 'g']);
    assert("bool"@ =~= seq!['b', 'o', 'o', 'l']);
    assert("\"\""@ =~= seq!['"', '"']);
    assert("false"@ =~= seq!['f', 'a', 'l', 's', 'e']);
    assert("nil"@ =~= seq!['n', 'i', 'l']);
    assert("[]"@ =~= seq!['[', ']']);
    assert("map["@ =~= seq!['m', 'a', 'p', '[']);
    assert("error"@ =~= seq!['e', 'r', 'r', 'o', 'r']);
    assert("{}"@ =~= seq!['{', '}']);
    let t = trim(go_type(ty));
    if zero_value(ty) == seq!['n', 'i', 'l'] {
        if t == "string"@ {
            assert(zero_value(ty) == "\"\""@);
            assert(zero_value(ty)[0] != 'n');
        } else if t == "bool"@ {
            assert(zero_value(ty)[0] != 'n');
        } else if crate::codegen::types::is_go_number(t) {
            assert(zero_value(ty)[0] != 'n');
        } else if starts_with(t, "*"@) || starts_with(t, "[]"@) || starts_with(t, "map["@)
            || starts_with(t, "func("@) || t == "error"@ {
            if starts_with(t, "*"@) {
                assert(t.subrange(0, 1)[0] == t[0]);
            }
            if starts_with(t, "func("@) {
                assert(t.subrange(0, 4) =~= t.subrange(0, 5).subrange(0, 4));
                assert(t.subrange(0, 4) =~= seq!['f', 'u', 'n', 'c']);
            }
        } else {
            let z = t + "{}"@;
            assert(z.last() == '}');
            assert(zero_value(ty).last() == 'l');
        }
    }
}

/// The zero value is a string literal exactly when the type is `string`, and then it is
/// the empty one, `""`.
pub proof fn law_string_zero_is_the_empty_literal(ty: Seq<char>)
    ensures
        go_string_literal(zero_value(ty)) <==> trim(go_type(ty)) == seq!['s', 't', 'r', 'i', 'n', 'g'],
        trim(go_type(ty)) == seq!['s', 't', 'r', 'i', 'n', 'g'] ==> zero_value(ty) == seq!['"', '"'],
{
    reveal_strlit("string");
    reveal_strlit("bool");
    reveal_strlit("\"\"");
    reveal_strlit("false");
    reveal_strlit("0");
    reveal_strlit("nil");
    reveal_strlit("{}");
    reveal_strlit("*");
    reveal_strlit("[]");
    reveal_strlit("map[");
    reveal_strlit("func(");
    reveal_strlit("error");
    assert("string"@ =~= seq!['s', 't', 'r', 'i', 'n', 'g']);
    assert("bool"@ =~= seq!['b', 'o', 'o', 'l']);
    assert("\"\""@ =~= seq!['"', '"']);
    assert("false"@ =~= seq!['f', 'a', 'l', 's', 'e']);
    assert("nil"@ =~= seq!['n', 'i', 'l']);
    assert("[]"@ =~= seq!['[', ']']);
    assert("map["@ =~= seq!['m', 'a', 'p', '[']);
    assert("error"@ =~= seq!['e', 'r', 'r', 'o', 'r']);
    assert("{}"@ =~= seq!['{', '}']);
    let t = trim(go_type(ty));
    if t != "string"@ {
        if t == "bool"@ {
            assert(zero_value(ty)[0] == 'f');
        } else if crate::codegen::types::is_go_number(t) {
            assert(zero_value(ty).len() == 1);
        } else if starts_with(t, "*"@) || starts_with(t, "[]"@) || starts_with(t, "map["@)
            || starts_with(t, "func("@) || t == "error"@ {
            assert(zero_value(ty)[0] == 'n');
        } else {
            assert(zero_value(ty).last() == '}');
        }
    }
}

/// The zero value is `false` exactly when the type is `bool`.
pub proof fn law_bool_zero_is_false(ty: Seq<char>)
    ensures
        zero_value(ty) == seq!['f', 'a', 'l', 's', 'e'] <==> trim(go_type(ty)) == seq!['b', 'o', 'o', 'l'],
{
    reveal_strlit("string");
    reveal_strlit("bool");
    reveal_strlit("\"\"");
    reveal_strlit("false");
    reveal_strlit("0");
    reveal_strlit("nil");
    reveal_strlit("{}");
    reveal_strlit("*");
    reveal_strlit("[]");
    reveal_strlit("map[");
    reveal_strlit("func(");
    reveal_strlit("error");
    assert("string"@ =~= seq!['s', 't', 'r', 'i', 'n', 'g']);
    assert("bool"@ =~= seq!['b', 'o', 'o', 'l']);
    assert("\"\""@ =~= seq!['"', '"']);
    assert("false"@ =~= seq!['f', 'a', 'l', 's', 'e']);
    assert("nil"@ =~= seq!['n', 'i', 'l']);
    assert("[]"@ =~= seq!['[', ']']);
    assert("map["@ =~= seq!['m', 'a', 'p', '[']);
    assert("error"@ =~= seq!['e', 'r', 'r', 'o', 'r']);
    assert("{}"@ =~= seq!['{', '}']);
    let t = trim(go_type(ty));
    if t != "bool"@ && zero_value(ty) == seq!['f', 'a', 'l', 's', 'e'] {
        if t == "string"@ {
            assert(zero_value(ty)[0] == '"');
        } else if crate::codegen::types::is_go_number(t) {
            assert(zero_value(ty).len() == 1);
        } else if starts_with(t, "*"@) || starts_with(t, "[]"@) || starts_with(t, "map["@)
            || starts_with(t, "func("@) || t == "error"@ {
            assert(zero_value(ty).len() == 3);
        } else {
            assert(zero_value(ty).last() == '}');
        }
    }
}

} // verus!
