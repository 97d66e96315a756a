use vstd::prelude::*;

use super::types::{TemplateType, TmplV, lemma_tmpl_seq_view, tmpl_seq_view, tmpl_view};
use crate::config::contract::Contract;
use crate::strmap::StrMap;
use crate::text::{
    append, contains_string, dec_int, join, join_strings, owned, parse_i64, parse_i64_str, push_decimal,
    push_decimal_i64, str_eq, views,
};

verus! {

/// `'v'`.
pub open spec fn quoted(v: Seq<char>) -> Seq<char> {
    "'"@ + v + "'"@
}

/// The length in bytes of the UTF-8 encoding of `v` (what `str::len` gives).
pub open spec fn byte_len(v: Seq<char>) -> int {
    vstd::utf8::encode_utf8(v).len() as int
}

/// Whether `value` satisfies contract `c` (named `name`), and the message when not.
pub open spec fn contract_check(value: Seq<char>, name: Seq<char>, c: Contract) -> Result<(), Seq<char>> {
    match c {
        Contract::IntRange { min, max } => match parse_i64(value) {
            None => Err(quoted(value) + " is not a valid integer for contract "@ + quoted(name)),
            Some(n) => if n < min || n > max {
                Err(quoted(value) + " not in range ["@ + dec_int(min as int) + ", "@ + dec_int(
                    max as int,
                ) + "] for contract "@ + quoted(name))
            } else {
                Ok(())
            },
        },
        Contract::StringLen { min, max } => {
            let len = byte_len(value);
            if len < min || len > max {
                Err(quoted(value) + " length "@ + dec_int(len) + " not in range ["@ + dec_int(
                    min as int,
                ) + ", "@ + dec_int(max as int) + "] for contract "@ + quoted(name))
            } else {
                Ok(())
            }
        },
        Contract::Enum { values } => if views(values@).contains(value) {
            Ok(())
        } else {
            Err(quoted(value) + " not in ["@ + join(views(values@), ", "@) + "] for contract "@
                + quoted(name))
        },
    }
}

/// Whether `value` is acceptable for template `t`, and the message when it is not.
/// A union accepts what any of its members accepts.
pub open spec fn validate_spec(value: Seq<char>, t: TmplV, contracts: StrMap<Contract>) -> Result<
    (),
    Seq<char>,
>
    decreases t,
{
    match t {
        TmplV::Str => if value.len() == 0 {
            Err("empty string not allowed"@)
        } else {
            Ok(())
        },
        TmplV::Int => if parse_i64(value) is Some {
            Ok(())
        } else {
            Err(quoted(value) + " is not a valid integer"@)
        },
        TmplV::Any => Ok(()),
        TmplV::ContractRef(name) => match contracts.lookup(name) {
            None => Err("unknown contract "@ + quoted(name)),
            Some(c) => contract_check(value, name, c),
        },
        TmplV::Union(ts) => match union_errors(value, ts, contracts) {
            None => Ok(()),
            Some(errs) => Err(quoted(value) + " matched none of the union: "@ + join(
                errs,
                "; "@,
            )),
        },
    }
}

/// `None` when some member of `ts` accepts `value`; else the messages of all members.
pub open spec fn union_errors(value: Seq<char>, ts: Seq<TmplV>, contracts: StrMap<Contract>) -> Option<
    Seq<Seq<char>>,
>
    decreases ts,
{
    if ts.len() == 0 {
        Some(Seq::empty())
    } else {
        match validate_spec(value, ts[0], contracts) {
            Ok(_) => None,
            Err(e) => match union_errors(value, ts.drop_first(), contracts) {
                None => None,
                Some(es) => Some(seq![e] + es),
            },
        }
    }
}

pub open spec fn prepend_errors(pre: Seq<Seq<char>>, o: Option<Seq<Seq<char>>>) -> Option<
    Seq<Seq<char>>,
> {
    match o {
        None => None,
        Some(es) => Some(pre + es),
    }
}

fn quoted_string(value: &str) -> (r: String)
    ensures
        r@ == quoted(value@),
{
    let mut r = owned("'");
    append(&mut r, value);
    append(&mut r, "'");
    r
}

fn check_contract(value: &str, name: &str, c: &Contract) -> (r: Result<(), String>)
    ensures
        match r {
            Ok(_) => contract_check(value@, name@, *c) is Ok,
            Err(e) => contract_check(value@, name@, *c) == Err::<(), Seq<char>>(e@),
        },
{
    match c {
        Contract::IntRange { min, max } => match parse_i64_str(value) {
            None => {
                let mut m = quoted_string(value);
                append(&mut m, " is not a valid integer for contract ");
                let q = quoted_string(name);
                append(&mut m, q.as_str());
                Err(m)
            },
            Some(n) => {
                if n < *min || n > *max {
                    let mut m = quoted_string(value);
                    append(&mut m, " not in range [");
                    push_decimal_i64(&mut m, *min);
                    append(&mut m, ", ");
                    push_decimal_i64(&mut m, *max);
                    append(&mut m, "] for contract ");
                    let q = quoted_string(name);
                    append(&mut m, q.as_str());
                    Err(m)
                } else {
                    Ok(())
                }
            },
        },
        Contract::StringLen { min, max } => {
            let len = value.as_bytes().len();
            if len < *min || len > *max {
                let mut m = quoted_string(value);
                append(&mut m, " length ");
                push_decimal(&mut m, len as u64);
                append(&mut m, " not in range [");
                push_decimal(&mut m, *min as u64);
                append(&mut m, ", ");
                push_decimal(&mut m, *max as u64);
                append(&mut m, "] for contract ");
                let q = quoted_string(name);
                append(&mut m, q.as_str());
                Err(m)
            } else {
                Ok(())
            }
        },
        Contract::Enum { values } => {
            if contains_string(values, value) {
                Ok(())
            } else {
                let mut m = quoted_string(value);
                append(&mut m, " not in [");
                let j = join_strings(values, ", ");
                append(&mut m, j.as_str());
                append(&mut m, "] for contract ");
                let q = quoted_string(name);
                append(&mut m, q.as_str());
                Err(m)
            }
        },
    }
}

/// Checks `value` against `template`: `{string}` refuses the empty string, `{int}` wants
/// an `i64`, `{any}` takes anything, a contract name applies that contract, and a union
/// accepts what any member accepts. The error is a message saying why not.
pub fn validate_template_value(value: &str, template: &TemplateType, contracts: &StrMap<Contract>) -> (r: Result<(), String>)
    ensures
        match r {
            Ok(_) => validate_spec(value@, template@, *contracts) is Ok,
            Err(e) => validate_spec(value@, template@, *contracts) == Err::<(), Seq<char>>(e@),
        },
    decreases template,
{
    match template {
        TemplateType::String => {
            if value.is_empty() {
                Err(owned("empty string not allowed"))
            } else {
                Ok(())
            }
        },
        TemplateType::Int => {
            if parse_i64_str(value).is_some() {
                Ok(())
            } else {
                let mut m = quoted_string(value);
                append(&mut m, " is not a valid integer");
                Err(m)
            }
        },
        TemplateType::Any => Ok(()),
        TemplateType::ContractRef(name) => match contracts.get(name.as_str()) {
            None => {
                let mut m = owned("unknown contract ");
                let q = quoted_string(name.as_str());
                append(&mut m, q.as_str());
                Err(m)
            },
            Some(c) => check_contract(value, name.as_str(), c),
        },
        TemplateType::Union(types) => {
            let ghost tv = tmpl_seq_view(types@);
            proof {
                lemma_tmpl_seq_view(types@);
                assert(tv.skip(0) =~= tv);
            }
            let mut errors: Vec<String> = Vec::new();
            let mut i: usize = 0;
            while i < types.len()
                invariant
                    i <= types@.len(),
                    *template == TemplateType::Union(*types),
                    template@ == TmplV::Union(tv),
                    tv == tmpl_seq_view(types@),
                    tv.len() == types@.len(),
                    forall|j: int| 0 <= j < types@.len() ==> #[trigger] tv[j] == tmpl_view(types@[j]),
                    union_errors(value@, tv, *contracts) == prepend_errors(
                        views(errors@),
                        union_errors(value@, tv.skip(i as int), *contracts),
                    ),
                decreases types.len() - i,
            {
                let ghost rest = tv.skip(i as int);
                assert(rest[0] == tv[i as int]);
                assert(rest.drop_first() =~= tv.skip(i + 1));
                proof {
                    assert(decreases_to!(*template => types@[i as int]));
                }
                match validate_template_value(value, &types[i], contracts) {
                    Ok(()) => {
                        return Ok(());
                    },
                    Err(e) => {
                        proof {
                            crate::text::lemma_views_push(errors@, e);
                            assert(views(errors@) + seq![e@] =~= views(errors@).push(e@));
                            match union_errors(value@, tv.skip(i + 1), *contracts) {
                                None => {},
                                Some(es) => {
                                    assert(views(errors@) + (seq![e@] + es) =~= views(
                                        errors@,
                                    ).push(e@) + es);
                                },
                            }
                        }
                        errors.push(e);
                    },
                }
                i = i + 1;
            }
            proof {
                assert(tv.skip(i as int) =~= Seq::<TmplV>::empty());
                assert(views(errors@) + Seq::<Seq<char>>::empty() =~= views(errors@));
            }
            let mut m = quoted_string(value);
            append(&mut m, " matched none of the union: ");
            let j = join_strings(&errors, "; ");
            append(&mut m, j.as_str());
            Err(m)
        },
    }
}

} // verus!
