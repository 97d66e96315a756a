use vstd::prelude::*;

verus! {

/// The kind of value a template placeholder accepts.
#[derive(Debug, PartialEq)]
pub enum TemplateType {
    String,
    Int,
    Any,
    ContractRef(String),
    Union(Vec<TemplateType>),
}

/// Mathematical model of a `TemplateType`.
pub enum TmplV {
    Str,
    Int,
    Any,
    ContractRef(Seq<char>),
    Union(Seq<TmplV>),
}

pub open spec fn tmpl_view(t: TemplateType) -> TmplV
    decreases t,
{
    match t {
        TemplateType::String => TmplV::Str,
        TemplateType::Int => TmplV::Int,
        TemplateType::Any => TmplV::Any,
        TemplateType::ContractRef(n) => TmplV::ContractRef(n@),
        TemplateType::Union(v) => TmplV::Union(tmpl_seq_view(v@)),
    }
}

pub open spec fn tmpl_seq_view(s: Seq<TemplateType>) -> Seq<TmplV>
    decreases s,
{
    if s.len() == 0 {
        Seq::empty()
    } else {
        tmpl_seq_view(s.drop_last()).push(tmpl_view(s.last()))
    }
}

impl View for TemplateType {
    type V = TmplV;

    open spec fn view(&self) -> TmplV {
        tmpl_view(*self)
    }
}

} // verus!

use crate::strmap::StrMap;

verus! {

/// A parsed entry of an `args` list.
#[derive(Debug)]
pub enum ArgPattern {
    /// Matches the token itself.
    Literal(String),
    /// A positional placeholder: matches any non-flag token.
    Template(TemplateType),
    /// A placeholder with a literal prefix and/or suffix, e.g. `--{unit}`, `{unit}.service`.
    TemplateContext { prefix: Option<String>, template: TemplateType, suffix: Option<String> },
    /// `flag=value` (or `flag:value` in DOS style) with a placeholder for the value.
    InlineFlag { flag: String, template: TemplateType },
}

/// Mathematical model of an `ArgPattern`.
pub enum PatternV {
    Literal(Seq<char>),
    Template(TmplV),
    Context { prefix: Option<Seq<char>>, template: TmplV, suffix: Option<Seq<char>> },
    Inline { flag: Seq<char>, template: TmplV },
}

pub open spec fn opt_view(o: Option<String>) -> Option<Seq<char>> {
    match o {
        Some(s) => Some(s@),
        None => None,
    }
}

impl View for ArgPattern {
    type V = PatternV;

    open spec fn view(&self) -> PatternV {
        match *self {
            ArgPattern::Literal(l) => PatternV::Literal(l@),
            ArgPattern::Template(t) => PatternV::Template(t@),
            ArgPattern::TemplateContext { prefix, template, suffix } => PatternV::Context {
                prefix: opt_view(prefix),
                template: template@,
                suffix: opt_view(suffix),
            },
            ArgPattern::InlineFlag { flag, template } => PatternV::Inline {
                flag: flag@,
                template: template@,
            },
        }
    }
}

/// A successful match: the rule, the named captures and the subcommand path.
#[derive(Debug)]
pub struct MatchResult {
    pub rule_index: usize,
    pub captures: StrMap<String>,
    pub subcommand_path: Vec<String>,
}

/// Mathematical model of a `MatchResult`.
pub struct MatchView {
    pub rule_index: int,
    pub captures: Map<Seq<char>, Seq<char>>,
    pub path: Seq<Seq<char>>,
}

impl View for MatchResult {
    type V = MatchView;

    open spec fn view(&self) -> MatchView {
        MatchView {
            rule_index: self.rule_index as int,
            captures: self.captures.string_view(),
            path: crate::text::views(self.subcommand_path@),
        }
    }
}

pub proof fn lemma_tmpl_seq_view(s: Seq<TemplateType>)
    ensures
        tmpl_seq_view(s).len() == s.len(),
        forall|i: int| 0 <= i < s.len() ==> #[trigger] tmpl_seq_view(s)[i] == tmpl_view(s[i]),
    decreases s.len(),
{
    if s.len() > 0 {
        lemma_tmpl_seq_view(s.drop_last());
    }
}

} // verus!
