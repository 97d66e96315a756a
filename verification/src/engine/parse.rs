use vstd::prelude::*;

use super::types::{ArgPattern, PatternV, TemplateType, TmplV, tmpl_seq_view, tmpl_view};
use crate::text::{
    chars_eq, chars_of, find_char, find_char_from, find_char_in, find_pair, find_pair_in,
    split_char, string_of, string_of_range, trim, trim_bounds,
};

verus! {

/// The template a single type name stands for.
pub open spec fn single_template(s: Seq<char>) -> TmplV {
    if s == "string"@ {
        TmplV::Str
    } else if s == "int"@ {
        TmplV::Int
    } else if s == "any"@ {
        TmplV::Any
    } else {
        TmplV::ContractRef(s)
    }
}

/// The template written between braces: a `|`-separated union of trimmed type names,
/// or a single type name.
pub open spec fn template_of(inner: Seq<char>) -> TmplV {
    if find_char(inner, '|') is Some {
        TmplV::Union(split_char(inner, '|').map_values(|p: Seq<char>| single_template(trim(p))))
    } else {
        single_template(inner)
    }
}

/// A pattern that holds braces but is neither an inline flag nor a bare template:
/// a template with context when there is text before the `{` or after the matching `}`,
/// else a literal.
pub open spec fn context_or_literal(raw: Seq<char>) -> PatternV {
    match find_char(raw, '{') {
        Some(open) => match find_char(raw.skip(open), '}') {
            Some(c) => {
                let close = open + c;
                let prefix = if open > 0 {
                    Some(raw.take(open))
                } else {
                    None
                };
                let suffix = if close + 1 < raw.len() {
                    Some(raw.skip(close + 1))
                } else {
                    None
                };
                if prefix is Some || suffix is Some {
                    PatternV::Context {
                        prefix,
                        template: template_of(raw.subrange(open + 1, close)),
                        suffix,
                    }
                } else {
                    PatternV::Literal(raw)
                }
            },
            None => PatternV::Literal(raw),
        },
        None => PatternV::Literal(raw),
    }
}

/// The pattern an `args` entry stands for:
/// `flag={t}` is an inline flag (the `={` not at the start, the entry ending in `}`);
/// `{t}` alone is a template; text around `{t}` gives a template with context;
/// anything else is a literal.
pub open spec fn pattern_of(raw: Seq<char>) -> PatternV {
    let n = raw.len();
    match find_pair(raw, '=', '{') {
        Some(e) if e > 0 && n > 0 && raw.last() == '}' => PatternV::Inline {
            flag: raw.take(e),
            template: template_of(raw.subrange(e + 2, n - 1)),
        },
        _ => if n > 2 && raw[0] == '{' && raw.last() == '}' {
            PatternV::Template(template_of(raw.subrange(1, n - 1)))
        } else {
            context_or_literal(raw)
        },
    }
}

fn chars_are(v: &Vec<char>, lit: &str) -> (r: bool)
    ensures
        r == (v@ == lit@),
{
    let l = chars_of(lit);
    chars_eq(v, &l)
}

fn single_of_chars(v: &Vec<char>) -> (r: TemplateType)
    ensures
        r@ == single_template(v@),
{
    if chars_are(v, "string") {
        TemplateType::String
    } else if chars_are(v, "int") {
        TemplateType::Int
    } else if chars_are(v, "any") {
        TemplateType::Any
    } else {
        TemplateType::ContractRef(string_of(v))
    }
}

/// The template a single type name stands for: `string`, `int`, `any`, or else the
/// name of a contract.
pub fn parse_single_template(s: &str) -> (r: TemplateType)
    ensures
        r@ == single_template(s@),
{
    single_of_chars(&chars_of(s))
}

/// The template written between braces (see `template_of`).
pub fn parse_template_type(inner: &str) -> (r: TemplateType)
    ensures
        r@ == template_of(inner@),
{
    parse_template_chars(&chars_of(inner))
}

fn parse_template_chars(v: &Vec<char>) -> (r: TemplateType)
    ensures
        r@ == template_of(v@),
{
    let bar = find_char_in(v, '|');
    if bar.is_none() {
        return single_of_chars(v);
    }
    assert(find_char(v@, '|') is Some);
    let ghost full = split_char(v@, '|');
    let ghost f = |p: Seq<char>| single_template(trim(p));
    let mut parts: Vec<TemplateType> = Vec::new();
    let ghost mut done: Seq<Seq<char>> = Seq::empty();
    let mut from: usize = 0;
    assert(v@.skip(0) =~= v@);
    loop
        invariant
            from <= v@.len(),
            find_char(v@, '|') is Some,
            full == split_char(v@, '|'),
            full == done + split_char(v@.skip(from as int), '|'),
            tmpl_seq_view(parts@) == done.map_values(f),
            f == (|p: Seq<char>| single_template(trim(p))),
        decreases v@.len() - from,
    {
        let ghost rest = v@.skip(from as int);
        proof {
            crate::text::lemma_find_char(rest, '|');
        }
        let found = find_char_from(v, '|', from);
        let end = match found {
            Some(i) => i,
            None => v.len(),
        };
        let seg = string_of_range(v, from, end);
        let sv = chars_of(seg.as_str());
        let (lo, hi) = trim_bounds(&sv);
        let piece = string_of_range(&sv, lo, hi);
        let t = parse_single_template(piece.as_str());
        proof {
            assert(parts@.push(t).drop_last() =~= parts@);
            assert(sv@ =~= rest.take(end - from));
        }
        parts.push(t);
        proof {
            done = done.push(rest.take(end - from));
            assert(done.map_values(f) =~= tmpl_seq_view(parts@));
        }
        match found {
            Some(i) => {
                proof {
                    assert(rest.skip(i - from + 1) =~= v@.skip(i + 1));
                    assert(split_char(rest, '|') =~= seq![rest.take(i - from)] + split_char(
                        v@.skip(i + 1),
                        '|',
                    ));
                    assert(full =~= done + split_char(v@.skip(i + 1), '|'));
                }
                from = i + 1;
            },
            None => {
                proof {
                    assert(rest.take(end - from) =~= rest);
                    assert(full =~= done);
                    assert(tmpl_seq_view(parts@) =~= split_char(v@, '|').map_values(
                        |p: Seq<char>| single_template(trim(p)),
                    ));
                }
                return TemplateType::Union(parts);
            },
        }
    }
}

/// The pattern an `args` entry stands for (see `pattern_of`).
pub fn parse_arg_pattern(raw: &str) -> (r: ArgPattern)
    ensures
        r@ == pattern_of(raw@),
{
    let v = chars_of(raw);
    let n = v.len();
    let ends_close = n > 0 && v[n - 1] == '}';
    proof {
        crate::text::lemma_find_pair(v@, '=', '{');
    }
    if let Some(eq_pos) = find_pair_in(&v, '=', '{') {
        if eq_pos > 0 && ends_close {
            let flag = string_of_range(&v, 0, eq_pos);
            let inner = string_of_range(&v, eq_pos + 2, n - 1);
            let template = parse_template_type(inner.as_str());
            proof {
                assert(flag@ =~= v@.take(eq_pos as int));
            }
            return ArgPattern::InlineFlag { flag, template };
        }
    }
    if n > 2 && v[0] == '{' && ends_close {
        let inner = string_of_range(&v, 1, n - 1);
        return ArgPattern::Template(parse_template_type(inner.as_str()));
    }
    proof {
        crate::text::lemma_find_char(v@, '{');
    }
    if let Some(open) = find_char_in(&v, '{') {
        proof {
            crate::text::lemma_find_char(v@.skip(open as int), '}');
        }
        if let Some(abs_close) = find_char_from(&v, '}', open) {
            let prefix = if open > 0 {
                Some(string_of_range(&v, 0, open))
            } else {
                None
            };
            let suffix = if abs_close + 1 < n {
                Some(string_of_range(&v, abs_close + 1, n))
            } else {
                None
            };
            proof {
                if open > 0 {
                    assert(prefix->0@ =~= v@.take(open as int));
                }
                if abs_close + 1 < n {
                    assert(suffix->0@ =~= v@.skip(abs_close + 1));
                }
            }
            if prefix.is_some() || suffix.is_some() {
                let inner = string_of_range(&v, open + 1, abs_close);
                let template = parse_template_type(inner.as_str());
                return ArgPattern::TemplateContext { prefix, template, suffix };
            }
        }
    }
    ArgPattern::Literal(string_of(&v))
}

/// An `args` entry without a `{` is a literal: it matches only the token that reads
/// the same.
pub proof fn law_entry_without_brace_is_literal(raw: Seq<char>)
    requires
        !raw.contains('{'),
    ensures
        pattern_of(raw) == PatternV::Literal(raw),
{
    crate::text::lemma_find_pair(raw, '=', '{');
    crate::text::lemma_find_char(raw, '{');
    if let Some(e) = find_pair(raw, '=', '{') {
        assert(raw[e + 1] == '{');
    }
    if raw.len() > 2 {
        assert(raw[0] != '{');
    }
    if let Some(o) = find_char(raw, '{') {
        assert(raw[o] == '{');
    }
}

} // verus!
