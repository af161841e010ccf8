//! Per-code message parameter contracts.
//!
//! Each lint code that carries message parameters owns one exact contract: a
//! set of union arms, each an exact key set with an optional closed value
//! domain per key. An empty allowed-value list admits any string.

use vstd::prelude::*;

use super::LintCodeTag;
use crate::primitives::str_eq;

verus! {

/// One message parameter. An empty `allowed_values` admits any UTF-8 string;
/// otherwise it is a closed domain that both encoder and decoder check.
#[derive(Debug, Clone)]
pub struct ParamSpec {
    pub key: &'static str,
    pub allowed_values: Vec<&'static str>,
}

/// One exact map arm. More than one arm represents a discriminated union: the
/// parameters must match one arm's keys and domains.
#[derive(Debug, Clone)]
pub struct ParamVariant {
    pub params: Vec<ParamSpec>,
}

/// The contract of one lint code.
#[derive(Debug, Clone)]
pub struct ParamContract {
    pub code: LintCodeTag,
    pub variants: Vec<ParamVariant>,
}

/// A parameter spec as `(key, allowed values)`.
pub type SpecParam = (Seq<char>, Seq<Seq<char>>);

impl ParamSpec {
    pub open spec fn view(&self) -> SpecParam {
        (self.key@, self.allowed_values@.map_values(|value: &'static str| value@))
    }
}

impl ParamVariant {
    pub open spec fn view(&self) -> Seq<SpecParam> {
        self.params@.map_values(|param: ParamSpec| param.view())
    }
}

impl ParamContract {
    pub open spec fn view(&self) -> Seq<Seq<SpecParam>> {
        self.variants@.map_values(|variant: ParamVariant| variant.view())
    }
}

/// The frozen contract table, in tag order. Codes without parameters have no
/// entry.
pub open spec fn spec_param_contract(code: LintCodeTag) -> Option<Seq<Seq<SpecParam>>> {
    match code {
        LintCodeTag::EmptyParagraph => Some(seq![seq![("marker"@, seq![])]]),
        LintCodeTag::UnknownToken => Some(seq![seq![("text"@, seq![])]]),
        LintCodeTag::UnknownMarker => Some(seq![seq![("marker"@, seq![])]]),
        LintCodeTag::UnknownCloseMarker => Some(seq![seq![("marker"@, seq![])]]),
        LintCodeTag::ContentBeforeFirstChapter => Some(seq![seq![("kind"@, seq!["paragraph"@, "verse"@]), ("marker"@, seq![])]]),
        LintCodeTag::NoteSubmarkerOutsideNote => Some(seq![seq![("marker"@, seq![])]]),
        LintCodeTag::MetadataOutsideTarget => Some(seq![seq![("marker"@, seq![]), ("target"@, seq!["chapter"@, "verse"@])]]),
        LintCodeTag::MarkerNotValidInContext => Some(seq![seq![("marker"@, seq![]), ("context"@, seq!["scripture"@, "book-identification"@, "book-headers"@, "book-titles"@, "book-introduction"@, "book-introduction-end-titles"@, "book-chapter-label"@, "chapter-content"@, "peripheral"@, "peripheral-content"@, "peripheral-division"@, "chapter"@, "verse"@, "section"@, "para"@, "list"@, "table"@, "sidebar"@, "footnote"@, "cross-reference"@])]]),
        LintCodeTag::MissingMilestoneSelfClose => Some(seq![seq![("marker"@, seq![])]]),
        LintCodeTag::StrayCloseMarker => Some(seq![seq![("form"@, seq!["milestone-end"@])], seq![("form"@, seq!["named"@]), ("marker"@, seq![])]]),
        LintCodeTag::MisnestedCloseMarker => Some(seq![seq![("has_expected"@, seq!["true"@]), ("expected"@, seq![]), ("marker"@, seq![])]]),
        LintCodeTag::ImplicitlyClosedMarker => Some(seq![seq![("marker"@, seq![]), ("closer"@, seq![])]]),
        LintCodeTag::UnclosedMarker => Some(seq![seq![("kind"@, seq!["note"@, "character"@, "other"@]), ("marker"@, seq![]), ("location"@, seq!["at-eof"@, "at-boundary"@])]]),
        LintCodeTag::DuplicateChapterNumber => Some(seq![seq![("chapter"@, seq![]), ("marker"@, seq![])]]),
        LintCodeTag::DuplicateVerseNumber => Some(seq![seq![("verse"@, seq![]), ("chapter"@, seq![]), ("marker"@, seq![])]]),
        LintCodeTag::InvalidNumberRange => Some(seq![seq![("found"@, seq![]), ("verse"@, seq![]), ("marker"@, seq![]), ("context"@, seq![])]]),
        LintCodeTag::MissingWhitespaceBeforeMarker => Some(seq![seq![("marker"@, seq![])]]),
        LintCodeTag::MissingHorizontalWhitespaceAfterMarkerName => Some(seq![seq![("marker"@, seq![])]]),
        LintCodeTag::MissingTagEndDelimiterAfterMarker => Some(seq![seq![("marker"@, seq![])]]),
        LintCodeTag::MissingContentSpaceAfterCloseMarker => Some(seq![seq![("marker"@, seq![])]]),
        LintCodeTag::VerseInSectionOrOtherParagraph => Some(seq![seq![("category"@, seq!["section"@, "other"@])]]),
        LintCodeTag::ContentAfterBlankMarker => Some(seq![seq![("marker"@, seq![])]]),
        LintCodeTag::InvalidBookCode => Some(seq![seq![("code"@, seq![])]]),
        LintCodeTag::BookCodeNotUppercase => Some(seq![seq![("code"@, seq![]), ("uppercase"@, seq![])]]),
        _ => None,
    }
}

/// Index of the first pair whose key is `key`, if any.
pub open spec fn first_key_index(params: Seq<(Seq<char>, Seq<char>)>, key: Seq<char>) -> Option<int>
    decreases params.len(),
{
    if params.len() == 0 {
        None
    } else if params[0].0 == key {
        Some(0)
    } else {
        match first_key_index(params.drop_first(), key) {
            Some(i) => Some(i + 1),
            None => None,
        }
    }
}

/// The pairs satisfy one parameter spec: its key is present, and the value of
/// its first occurrence is in the spec's domain.
pub open spec fn satisfies_param(params: Seq<(Seq<char>, Seq<char>)>, param: SpecParam) -> bool {
    match first_key_index(params, param.0) {
        Some(i) => param.1.len() == 0 || param.1.contains(params[i].1),
        None => false,
    }
}

/// The pairs match one union arm exactly.
pub open spec fn matches_variant(params: Seq<(Seq<char>, Seq<char>)>, variant: Seq<SpecParam>) -> bool {
    params.len() == variant.len() && forall|j: int|
        0 <= j < variant.len() ==> #[trigger] satisfies_param(params, variant[j])
}

/// The pairs match at least one union arm of the contract.
pub open spec fn contract_accepts(contract: Seq<Seq<SpecParam>>, params: Seq<(Seq<char>, Seq<char>)>) -> bool {
    exists|v: int| 0 <= v < contract.len() && #[trigger] matches_variant(params, contract[v])
}

/// The character view of borrowed pairs.
pub open spec fn pairs_view(params: Seq<(&str, &str)>) -> Seq<(Seq<char>, Seq<char>)> {
    params.map_values(|pair: (&str, &str)| (pair.0@, pair.1@))
}

impl ParamContract {
    /// True when `params`, read as a map whose keys are looked up by their first
    /// occurrence, matches one union arm exactly.
    pub fn accepts(&self, params: &[(&str, &str)]) -> (accepted: bool)
        ensures
            accepted == contract_accepts(self.view(), pairs_view(params@)),
    {
        let mut v: usize = 0;
        while v < self.variants.len()
            invariant
                v <= self.variants@.len(),
                forall|w: int| 0 <= w < v ==> !#[trigger] matches_variant(pairs_view(params@), self.view()[w]),
            decreases self.variants@.len() - v,
        {
            if variant_matches(&self.variants[v], params) {
                assert(matches_variant(pairs_view(params@), self.view()[v as int]));
                return true;
            }
            v = v + 1;
        }
        false
    }
}

fn variant_matches(variant: &ParamVariant, params: &[(&str, &str)]) -> (matched: bool)
    ensures
        matched == matches_variant(pairs_view(params@), variant.view()),
{
    if params.len() != variant.params.len() {
        return false;
    }
    let mut j: usize = 0;
    while j < variant.params.len()
        invariant
            j <= variant.params@.len(),
            params@.len() == variant.params@.len(),
            forall|k: int| 0 <= k < j ==> #[trigger] satisfies_param(pairs_view(params@), variant.view()[k]),
        decreases variant.params@.len() - j,
    {
        if !param_satisfied(&variant.params[j], params) {
            assert(variant.view()[j as int] == variant.params@[j as int].view());
            assert(!satisfies_param(pairs_view(params@), variant.view()[j as int]));
            return false;
        }
        j = j + 1;
    }
    true
}

/// `first_key_index` finds the first pair carrying the key.
proof fn lemma_first_key_index(ps: Seq<(Seq<char>, Seq<char>)>, key: Seq<char>, i: int)
    requires
        0 <= i <= ps.len(),
        forall|k: int| 0 <= k < i ==> #[trigger] ps[k].0 != key,
        i < ps.len() ==> ps[i].0 == key,
    ensures
        i < ps.len() ==> first_key_index(ps, key) == Some(i),
        i == ps.len() ==> first_key_index(ps, key) is None,
    decreases ps.len(),
{
    if ps.len() > 0 && i > 0 {
        let rest = ps.drop_first();
        assert forall|k: int| 0 <= k < i - 1 implies #[trigger] rest[k].0 != key by {
            assert(rest[k] == ps[k + 1]);
        }
        lemma_first_key_index(rest, key, i - 1);
    }
}

fn param_satisfied(param: &ParamSpec, params: &[(&str, &str)]) -> (ok: bool)
    ensures
        ok == satisfies_param(pairs_view(params@), param.view()),
{
    let ghost ps = pairs_view(params@);
    let mut i: usize = 0;
    while i < params.len()
        invariant
            i <= params@.len(),
            ps == pairs_view(params@),
            forall|k: int| 0 <= k < i ==> #[trigger] ps[k].0 != param.key@,
        decreases params@.len() - i,
    {
        if str_eq(params[i].0, param.key) {
            proof {
                assert(ps[i as int].0 == params@[i as int].0@);
                lemma_first_key_index(ps, param.key@, i as int);
            }
            let value = params[i].1;
            assert(ps[i as int].1 == value@);
            if param.allowed_values.len() == 0 {
                assert(param.view().1.len() == 0);
                return true;
            }
            let mut a: usize = 0;
            while a < param.allowed_values.len()
                invariant
                    a <= param.allowed_values@.len(),
                    ps == pairs_view(params@),
                    (i as int) < ps.len(),
                    first_key_index(ps, param.key@) == Some(i as int),
                    ps[i as int].1 == value@,
                    forall|b: int| 0 <= b < a ==> #[trigger] param.allowed_values@[b]@ != value@,
                decreases param.allowed_values@.len() - a,
            {
                if str_eq(param.allowed_values[a], value) {
                    assert(param.view().1[a as int] == value@);
                    return true;
                }
                a = a + 1;
            }
            proof {
                assert forall|b: int| 0 <= b < param.view().1.len() implies param.view().1[b] != value@ by {
                    assert(param.view().1[b] == param.allowed_values@[b]@);
                }
            }
            return false;
        }
        assert(ps[i as int].0 == params@[i as int].0@);
        i = i + 1;
    }
    proof {
        lemma_first_key_index(ps, param.key@, i as int);
    }
    false
}

fn contract_0() -> (contract: ParamContract)
    ensures
        contract.view() == spec_param_contract(LintCodeTag::EmptyParagraph).unwrap(),
        contract.code == LintCodeTag::EmptyParagraph,
{
    let mut variants: Vec<ParamVariant> = Vec::new();
    let mut params: Vec<ParamSpec> = Vec::new();
    let mut allowed: Vec<&'static str> = Vec::new();
    params.push(ParamSpec { key: "marker", allowed_values: allowed });
    variants.push(ParamVariant { params });
    let contract = ParamContract { code: LintCodeTag::EmptyParagraph, variants };
    proof {
        assert(contract.view() =~~= spec_param_contract(LintCodeTag::EmptyParagraph).unwrap());
    }
    contract
}

fn contract_1() -> (contract: ParamContract)
    ensures
        contract.view() == spec_param_contract(LintCodeTag::UnknownToken).unwrap(),
        contract.code == LintCodeTag::UnknownToken,
{
    let mut variants: Vec<ParamVariant> = Vec::new();
    let mut params: Vec<ParamSpec> = Vec::new();
    let mut allowed: Vec<&'static str> = Vec::new();
    params.push(ParamSpec { key: "text", allowed_values: allowed });
    variants.push(ParamVariant { params });
    let contract = ParamContract { code: LintCodeTag::UnknownToken, variants };
    proof {
        assert(contract.view() =~~= spec_param_contract(LintCodeTag::UnknownToken).unwrap());
    }
    contract
}

fn contract_2() -> (contract: ParamContract)
    ensures
        contract.view() == spec_param_contract(LintCodeTag::UnknownMarker).unwrap(),
        contract.code == LintCodeTag::UnknownMarker,
{
    let mut variants: Vec<ParamVariant> = Vec::new();
    let mut params: Vec<ParamSpec> = Vec::new();
    let mut allowed: Vec<&'static str> = Vec::new();
    params.push(ParamSpec { key: "marker", allowed_values: allowed });
    variants.push(ParamVariant { params });
    let contract = ParamContract { code: LintCodeTag::UnknownMarker, variants };
    proof {
        assert(contract.view() =~~= spec_param_contract(LintCodeTag::UnknownMarker).unwrap());
    }
    contract
}

fn contract_3() -> (contract: ParamContract)
    ensures
        contract.view() == spec_param_contract(LintCodeTag::UnknownCloseMarker).unwrap(),
        contract.code == LintCodeTag::UnknownCloseMarker,
{
    let mut variants: Vec<ParamVariant> = Vec::new();
    let mut params: Vec<ParamSpec> = Vec::new();
    let mut allowed: Vec<&'static str> = Vec::new();
    params.push(ParamSpec { key: "marker", allowed_values: allowed });
    variants.push(ParamVariant { params });
    let contract = ParamContract { code: LintCodeTag::UnknownCloseMarker, variants };
    proof {
        assert(contract.view() =~~= spec_param_contract(LintCodeTag::UnknownCloseMarker).unwrap());
    }
    contract
}

fn contract_4() -> (contract: ParamContract)
    ensures
        contract.view() == spec_param_contract(LintCodeTag::ContentBeforeFirstChapter).unwrap(),
        contract.code == LintCodeTag::ContentBeforeFirstChapter,
{
    let mut variants: Vec<ParamVariant> = Vec::new();
    let mut params: Vec<ParamSpec> = Vec::new();
    let mut allowed: Vec<&'static str> = Vec::new();
    allowed.push("paragraph");
    allowed.push("verse");
    params.push(ParamSpec { key: "kind", allowed_values: allowed });
    let mut allowed: Vec<&'static str> = Vec::new();
    params.push(ParamSpec { key: "marker", allowed_values: allowed });
    variants.push(ParamVariant { params });
    let contract = ParamContract { code: LintCodeTag::ContentBeforeFirstChapter, variants };
    proof {
        assert(contract.view() =~~= spec_param_contract(LintCodeTag::ContentBeforeFirstChapter).unwrap());
    }
    contract
}

fn contract_5() -> (contract: ParamContract)
    ensures
        contract.view() == spec_param_contract(LintCodeTag::NoteSubmarkerOutsideNote).unwrap(),
        contract.code == LintCodeTag::NoteSubmarkerOutsideNote,
{
    let mut variants: Vec<ParamVariant> = Vec::new();
    let mut params: Vec<ParamSpec> = Vec::new();
    let mut allowed: Vec<&'static str> = Vec::new();
    params.push(ParamSpec { key: "marker", allowed_values: allowed });
    variants.push(ParamVariant { params });
    let contract = ParamContract { code: LintCodeTag::NoteSubmarkerOutsideNote, variants };
    proof {
        assert(contract.view() =~~= spec_param_contract(LintCodeTag::NoteSubmarkerOutsideNote).unwrap());
    }
    contract
}

fn contract_6() -> (contract: ParamContract)
    ensures
        contract.view() == spec_param_contract(LintCodeTag::MetadataOutsideTarget).unwrap(),
        contract.code == LintCodeTag::MetadataOutsideTarget,
{
    let mut variants: Vec<ParamVariant> = Vec::new();
    let mut params: Vec<ParamSpec> = Vec::new();
    let mut allowed: Vec<&'static str> = Vec::new();
    params.push(ParamSpec { key: "marker", allowed_values: allowed });
    let mut allowed: Vec<&'static str> = Vec::new();
    allowed.push("chapter");
    allowed.push("verse");
    params.push(ParamSpec { key: "target", allowed_values: allowed });
    variants.push(ParamVariant { params });
    let contract = ParamContract { code: LintCodeTag::MetadataOutsideTarget, variants };
    proof {
        assert(contract.view() =~~= spec_param_contract(LintCodeTag::MetadataOutsideTarget).unwrap());
    }
    contract
}

fn contract_7() -> (contract: ParamContract)
    ensures
        contract.view() == spec_param_contract(LintCodeTag::MarkerNotValidInContext).unwrap(),
        contract.code == LintCodeTag::MarkerNotValidInContext,
{
    let mut variants: Vec<ParamVariant> = Vec::new();
    let mut params: Vec<ParamSpec> = Vec::new();
    let mut allowed: Vec<&'static str> = Vec::new();
    params.push(ParamSpec { key: "marker", allowed_values: allowed });
    let mut allowed: Vec<&'static str> = Vec::new();
    allowed.push("scripture");
    allowed.push("book-identification");
    allowed.push("book-headers");
    allowed.push("book-titles");
    allowed.push("book-introduction");
    allowed.push("book-introduction-end-titles");
    allowed.push("book-chapter-label");
    allowed.push("chapter-content");
    allowed.push("peripheral");
    allowed.push("peripheral-content");
    allowed.push("peripheral-division");
    allowed.push("chapter");
    allowed.push("verse");
    allowed.push("section");
    allowed.push("para");
    allowed.push("list");
    allowed.push("table");
    allowed.push("sidebar");
    allowed.push("footnote");
    allowed.push("cross-reference");
    params.push(ParamSpec { key: "context", allowed_values: allowed });
    variants.push(ParamVariant { params });
    let contract = ParamContract { code: LintCodeTag::MarkerNotValidInContext, variants };
    proof {
        assert(contract.view() =~~= spec_param_contract(LintCodeTag::MarkerNotValidInContext).unwrap());
    }
    contract
}

fn contract_8() -> (contract: ParamContract)
    ensures
        contract.view() == spec_param_contract(LintCodeTag::MissingMilestoneSelfClose).unwrap(),
        contract.code == LintCodeTag::MissingMilestoneSelfClose,
{
    let mut variants: Vec<ParamVariant> = Vec::new();
    let mut params: Vec<ParamSpec> = Vec::new();
    let mut allowed: Vec<&'static str> = Vec::new();
    params.push(ParamSpec { key: "marker", allowed_values: allowed });
    variants.push(ParamVariant { params });
    let contract = ParamContract { code: LintCodeTag::MissingMilestoneSelfClose, variants };
    proof {
        assert(contract.view() =~~= spec_param_contract(LintCodeTag::MissingMilestoneSelfClose).unwrap());
    }
    contract
}

fn contract_9() -> (contract: ParamContract)
    ensures
        contract.view() == spec_param_contract(LintCodeTag::StrayCloseMarker).unwrap(),
        contract.code == LintCodeTag::StrayCloseMarker,
{
    let mut variants: Vec<ParamVariant> = Vec::new();
    let mut params: Vec<ParamSpec> = Vec::new();
    let mut allowed: Vec<&'static str> = Vec::new();
    allowed.push("milestone-end");
    params.push(ParamSpec { key: "form", allowed_values: allowed });
    variants.push(ParamVariant { params });
    let mut params: Vec<ParamSpec> = Vec::new();
    let mut allowed: Vec<&'static str> = Vec::new();
    allowed.push("named");
    params.push(ParamSpec { key: "form", allowed_values: allowed });
    let mut allowed: Vec<&'static str> = Vec::new();
    params.push(ParamSpec { key: "marker", allowed_values: allowed });
    variants.push(ParamVariant { params });
    let contract = ParamContract { code: LintCodeTag::StrayCloseMarker, variants };
    proof {
        assert(contract.view() =~~= spec_param_contract(LintCodeTag::StrayCloseMarker).unwrap());
    }
    contract
}

fn contract_10() -> (contract: ParamContract)
    ensures
        contract.view() == spec_param_contract(LintCodeTag::MisnestedCloseMarker).unwrap(),
        contract.code == LintCodeTag::MisnestedCloseMarker,
{
    let mut variants: Vec<ParamVariant> = Vec::new();
    let mut params: Vec<ParamSpec> = Vec::new();
    let mut allowed: Vec<&'static str> = Vec::new();
    allowed.push("true");
    params.push(ParamSpec { key: "has_expected", allowed_values: allowed });
    let mut allowed: Vec<&'static str> = Vec::new();
    params.push(ParamSpec { key: "expected", allowed_values: allowed });
    let mut allowed: Vec<&'static str> = Vec::new();
    params.push(ParamSpec { key: "marker", allowed_values: allowed });
    variants.push(ParamVariant { params });
    let contract = ParamContract { code: LintCodeTag::MisnestedCloseMarker, variants };
    proof {
        assert(contract.view() =~~= spec_param_contract(LintCodeTag::MisnestedCloseMarker).unwrap());
    }
    contract
}

fn contract_11() -> (contract: ParamContract)
    ensures
        contract.view() == spec_param_contract(LintCodeTag::ImplicitlyClosedMarker).unwrap(),
        contract.code == LintCodeTag::ImplicitlyClosedMarker,
{
    let mut variants: Vec<ParamVariant> = Vec::new();
    let mut params: Vec<ParamSpec> = Vec::new();
    let mut allowed: Vec<&'static str> = Vec::new();
    params.push(ParamSpec { key: "marker", allowed_values: allowed });
    let mut allowed: Vec<&'static str> = Vec::new();
    params.push(ParamSpec { key: "closer", allowed_values: allowed });
    variants.push(ParamVariant { params });
    let contract = ParamContract { code: LintCodeTag::ImplicitlyClosedMarker, variants };
    proof {
        assert(contract.view() =~~= spec_param_contract(LintCodeTag::ImplicitlyClosedMarker).unwrap());
    }
    contract
}

fn contract_12() -> (contract: ParamContract)
    ensures
        contract.view() == spec_param_contract(LintCodeTag::UnclosedMarker).unwrap(),
        contract.code == LintCodeTag::UnclosedMarker,
{
    let mut variants: Vec<ParamVariant> = Vec::new();
    let mut params: Vec<ParamSpec> = Vec::new();
    let mut allowed: Vec<&'static str> = Vec::new();
    allowed.push("note");
    allowed.push("character");
    allowed.push("other");
    params.push(ParamSpec { key: "kind", allowed_values: allowed });
    let mut allowed: Vec<&'static str> = Vec::new();
    params.push(ParamSpec { key: "marker", allowed_values: allowed });
    let mut allowed: Vec<&'static str> = Vec::new();
    allowed.push("at-eof");
    allowed.push("at-boundary");
    params.push(ParamSpec { key: "location", allowed_values: allowed });
    variants.push(ParamVariant { params });
    let contract = ParamContract { code: LintCodeTag::UnclosedMarker, variants };
    proof {
        assert(contract.view() =~~= spec_param_contract(LintCodeTag::UnclosedMarker).unwrap());
    }
    contract
}

fn contract_13() -> (contract: ParamContract)
    ensures
        contract.view() == spec_param_contract(LintCodeTag::DuplicateChapterNumber).unwrap(),
        contract.code == LintCodeTag::DuplicateChapterNumber,
{
    let mut variants: Vec<ParamVariant> = Vec::new();
    let mut params: Vec<ParamSpec> = Vec::new();
    let mut allowed: Vec<&'static str> = Vec::new();
    params.push(ParamSpec { key: "chapter", allowed_values: allowed });
    let mut allowed: Vec<&'static str> = Vec::new();
    params.push(ParamSpec { key: "marker", allowed_values: allowed });
    variants.push(ParamVariant { params });
    let contract = ParamContract { code: LintCodeTag::DuplicateChapterNumber, variants };
    proof {
        assert(contract.view() =~~= spec_param_contract(LintCodeTag::DuplicateChapterNumber).unwrap());
    }
    contract
}

fn contract_14() -> (contract: ParamContract)
    ensures
        contract.view() == spec_param_contract(LintCodeTag::DuplicateVerseNumber).unwrap(),
        contract.code == LintCodeTag::DuplicateVerseNumber,
{
    let mut variants: Vec<ParamVariant> = Vec::new();
    let mut params: Vec<ParamSpec> = Vec::new();
    let mut allowed: Vec<&'static str> = Vec::new();
    params.push(ParamSpec { key: "verse", allowed_values: allowed });
    let mut allowed: Vec<&'static str> = Vec::new();
    params.push(ParamSpec { key: "chapter", allowed_values: allowed });
    let mut allowed: Vec<&'static str> = Vec::new();
    params.push(ParamSpec { key: "marker", allowed_values: allowed });
    variants.push(ParamVariant { params });
    let contract = ParamContract { code: LintCodeTag::DuplicateVerseNumber, variants };
    proof {
        assert(contract.view() =~~= spec_param_contract(LintCodeTag::DuplicateVerseNumber).unwrap());
    }
    contract
}

fn contract_15() -> (contract: ParamContract)
    ensures
        contract.view() == spec_param_contract(LintCodeTag::InvalidNumberRange).unwrap(),
        contract.code == LintCodeTag::InvalidNumberRange,
{
    let mut variants: Vec<ParamVariant> = Vec::new();
    let mut params: Vec<ParamSpec> = Vec::new();
    let mut allowed: Vec<&'static str> = Vec::new();
    params.push(ParamSpec { key: "found", allowed_values: allowed });
    let mut allowed: Vec<&'static str> = Vec::new();
    params.push(ParamSpec { key: "verse", allowed_values: allowed });
    let mut allowed: Vec<&'static str> = Vec::new();
    params.push(ParamSpec { key: "marker", allowed_values: allowed });
    let mut allowed: Vec<&'static str> = Vec::new();
    params.push(ParamSpec { key: "context", allowed_values: allowed });
    variants.push(ParamVariant { params });
    let contract = ParamContract { code: LintCodeTag::InvalidNumberRange, variants };
    proof {
        assert(contract.view() =~~= spec_param_contract(LintCodeTag::InvalidNumberRange).unwrap());
    }
    contract
}

fn contract_16() -> (contract: ParamContract)
    ensures
        contract.view() == spec_param_contract(LintCodeTag::MissingWhitespaceBeforeMarker).unwrap(),
        contract.code == LintCodeTag::MissingWhitespaceBeforeMarker,
{
    let mut variants: Vec<ParamVariant> = Vec::new();
    let mut params: Vec<ParamSpec> = Vec::new();
    let mut allowed: Vec<&'static str> = Vec::new();
    params.push(ParamSpec { key: "marker", allowed_values: allowed });
    variants.push(ParamVariant { params });
    let contract = ParamContract { code: LintCodeTag::MissingWhitespaceBeforeMarker, variants };
    proof {
        assert(contract.view() =~~= spec_param_contract(LintCodeTag::MissingWhitespaceBeforeMarker).unwrap());
    }
    contract
}

fn contract_17() -> (contract: ParamContract)
    ensures
        contract.view() == spec_param_contract(LintCodeTag::MissingHorizontalWhitespaceAfterMarkerName).unwrap(),
        contract.code == LintCodeTag::MissingHorizontalWhitespaceAfterMarkerName,
{
    let mut variants: Vec<ParamVariant> = Vec::new();
    let mut params: Vec<ParamSpec> = Vec::new();
    let mut allowed: Vec<&'static str> = Vec::new();
    params.push(ParamSpec { key: "marker", allowed_values: allowed });
    variants.push(ParamVariant { params });
    let contract = ParamContract { code: LintCodeTag::MissingHorizontalWhitespaceAfterMarkerName, variants };
    proof {
        assert(contract.view() =~~= spec_param_contract(LintCodeTag::MissingHorizontalWhitespaceAfterMarkerName).unwrap());
    }
    contract
}

fn contract_18() -> (contract: ParamContract)
    ensures
        contract.view() == spec_param_contract(LintCodeTag::MissingTagEndDelimiterAfterMarker).unwrap(),
        contract.code == LintCodeTag::MissingTagEndDelimiterAfterMarker,
{
    let mut variants: Vec<ParamVariant> = Vec::new();
    let mut params: Vec<ParamSpec> = Vec::new();
    let mut allowed: Vec<&'static str> = Vec::new();
    params.push(ParamSpec { key: "marker", allowed_values: allowed });
    variants.push(ParamVariant { params });
    let contract = ParamContract { code: LintCodeTag::MissingTagEndDelimiterAfterMarker, variants };
    proof {
        assert(contract.view() =~~= spec_param_contract(LintCodeTag::MissingTagEndDelimiterAfterMarker).unwrap());
    }
    contract
}

fn contract_19() -> (contract: ParamContract)
    ensures
        contract.view() == spec_param_contract(LintCodeTag::MissingContentSpaceAfterCloseMarker).unwrap(),
        contract.code == LintCodeTag::MissingContentSpaceAfterCloseMarker,
{
    let mut variants: Vec<ParamVariant> = Vec::new();
    let mut params: Vec<ParamSpec> = Vec::new();
    let mut allowed: Vec<&'static str> = Vec::new();
    params.push(ParamSpec { key: "marker", allowed_values: allowed });
    variants.push(ParamVariant { params });
    let contract = ParamContract { code: LintCodeTag::MissingContentSpaceAfterCloseMarker, variants };
    proof {
        assert(contract.view() =~~= spec_param_contract(LintCodeTag::MissingContentSpaceAfterCloseMarker).unwrap());
    }
    contract
}

fn contract_20() -> (contract: ParamContract)
    ensures
        contract.view() == spec_param_contract(LintCodeTag::VerseInSectionOrOtherParagraph).unwrap(),
        contract.code == LintCodeTag::VerseInSectionOrOtherParagraph,
{
    let mut variants: Vec<ParamVariant> = Vec::new();
    let mut params: Vec<ParamSpec> = Vec::new();
    let mut allowed: Vec<&'static str> = Vec::new();
    allowed.push("section");
    allowed.push("other");
    params.push(ParamSpec { key: "category", allowed_values: allowed });
    variants.push(ParamVariant { params });
    let contract = ParamContract { code: LintCodeTag::VerseInSectionOrOtherParagraph, variants };
    proof {
        assert(contract.view() =~~= spec_param_contract(LintCodeTag::VerseInSectionOrOtherParagraph).unwrap());
    }
    contract
}

fn contract_21() -> (contract: ParamContract)
    ensures
        contract.view() == spec_param_contract(LintCodeTag::ContentAfterBlankMarker).unwrap(),
        contract.code == LintCodeTag::ContentAfterBlankMarker,
{
    let mut variants: Vec<ParamVariant> = Vec::new();
    let mut params: Vec<ParamSpec> = Vec::new();
    let mut allowed: Vec<&'static str> = Vec::new();
    params.push(ParamSpec { key: "marker", allowed_values: allowed });
    variants.push(ParamVariant { params });
    let contract = ParamContract { code: LintCodeTag::ContentAfterBlankMarker, variants };
    proof {
        assert(contract.view() =~~= spec_param_contract(LintCodeTag::ContentAfterBlankMarker).unwrap());
    }
    contract
}

fn contract_22() -> (contract: ParamContract)
    ensures
        contract.view() == spec_param_contract(LintCodeTag::InvalidBookCode).unwrap(),
        contract.code == LintCodeTag::InvalidBookCode,
{
    let mut variants: Vec<ParamVariant> = Vec::new();
    let mut params: Vec<ParamSpec> = Vec::new();
    let mut allowed: Vec<&'static str> = Vec::new();
    params.push(ParamSpec { key: "code", allowed_values: allowed });
    variants.push(ParamVariant { params });
    let contract = ParamContract { code: LintCodeTag::InvalidBookCode, variants };
    proof {
        assert(contract.view() =~~= spec_param_contract(LintCodeTag::InvalidBookCode).unwrap());
    }
    contract
}

fn contract_23() -> (contract: ParamContract)
    ensures
        contract.view() == spec_param_contract(LintCodeTag::BookCodeNotUppercase).unwrap(),
        contract.code == LintCodeTag::BookCodeNotUppercase,
{
    let mut variants: Vec<ParamVariant> = Vec::new();
    let mut params: Vec<ParamSpec> = Vec::new();
    let mut allowed: Vec<&'static str> = Vec::new();
    params.push(ParamSpec { key: "code", allowed_values: allowed });
    let mut allowed: Vec<&'static str> = Vec::new();
    params.push(ParamSpec { key: "uppercase", allowed_values: allowed });
    variants.push(ParamVariant { params });
    let contract = ParamContract { code: LintCodeTag::BookCodeNotUppercase, variants };
    proof {
        assert(contract.view() =~~= spec_param_contract(LintCodeTag::BookCodeNotUppercase).unwrap());
    }
    contract
}


/// The contract of `code`, if the code carries message parameters.
pub fn param_contract(code: LintCodeTag) -> (contract: Option<ParamContract>)
    ensures
        contract matches Some(c) ==> c.code == code,
        match contract {
            Some(c) => spec_param_contract(code) == Some(c.view()),
            None => spec_param_contract(code) is None,
        },
{
    match code {
        LintCodeTag::EmptyParagraph => Some(contract_0()),
        LintCodeTag::UnknownToken => Some(contract_1()),
        LintCodeTag::UnknownMarker => Some(contract_2()),
        LintCodeTag::UnknownCloseMarker => Some(contract_3()),
        LintCodeTag::ContentBeforeFirstChapter => Some(contract_4()),
        LintCodeTag::NoteSubmarkerOutsideNote => Some(contract_5()),
        LintCodeTag::MetadataOutsideTarget => Some(contract_6()),
        LintCodeTag::MarkerNotValidInContext => Some(contract_7()),
        LintCodeTag::MissingMilestoneSelfClose => Some(contract_8()),
        LintCodeTag::StrayCloseMarker => Some(contract_9()),
        LintCodeTag::MisnestedCloseMarker => Some(contract_10()),
        LintCodeTag::ImplicitlyClosedMarker => Some(contract_11()),
        LintCodeTag::UnclosedMarker => Some(contract_12()),
        LintCodeTag::DuplicateChapterNumber => Some(contract_13()),
        LintCodeTag::DuplicateVerseNumber => Some(contract_14()),
        LintCodeTag::InvalidNumberRange => Some(contract_15()),
        LintCodeTag::MissingWhitespaceBeforeMarker => Some(contract_16()),
        LintCodeTag::MissingHorizontalWhitespaceAfterMarkerName => Some(contract_17()),
        LintCodeTag::MissingTagEndDelimiterAfterMarker => Some(contract_18()),
        LintCodeTag::MissingContentSpaceAfterCloseMarker => Some(contract_19()),
        LintCodeTag::VerseInSectionOrOtherParagraph => Some(contract_20()),
        LintCodeTag::ContentAfterBlankMarker => Some(contract_21()),
        LintCodeTag::InvalidBookCode => Some(contract_22()),
        LintCodeTag::BookCodeNotUppercase => Some(contract_23()),
        _ => None,
    }
}

/// The wire values of the codes that carry parameters, in tag order.
pub open spec fn param_contract_codes() -> Seq<u8> {
    seq![3u8, 7, 8, 9, 10, 12, 13, 14, 15, 16, 17, 18, 19, 20, 21, 22, 24, 25, 26, 27, 28, 29, 30, 31]
}

/// Every contract, in tag order: one entry for each code that carries
/// parameters, and none for any other code.
pub fn param_contracts() -> (contracts: Vec<ParamContract>)
    ensures
        forall|i: int| 0 <= i < contracts@.len() ==>
            spec_param_contract(contracts@[i].code) == Some(#[trigger] contracts@[i].view()),
        contracts@.map_values(|c: ParamContract| c.code.spec_as_u8()) == param_contract_codes(),
        forall|i: int, j: int| 0 <= i < j < contracts@.len() ==>
            (#[trigger] contracts@[i].code).spec_as_u8() < (#[trigger] contracts@[j].code).spec_as_u8(),
        forall|code: LintCodeTag| #[trigger] spec_param_contract(code) is Some ==>
            exists|i: int| 0 <= i < contracts@.len() && contracts@[i].code == code,
{
    let mut contracts: Vec<ParamContract> = Vec::new();
    contracts.push(contract_0());
    contracts.push(contract_1());
    contracts.push(contract_2());
    contracts.push(contract_3());
    contracts.push(contract_4());
    contracts.push(contract_5());
    contracts.push(contract_6());
    contracts.push(contract_7());
    contracts.push(contract_8());
    contracts.push(contract_9());
    contracts.push(contract_10());
    contracts.push(contract_11());
    contracts.push(contract_12());
    contracts.push(contract_13());
    contracts.push(contract_14());
    contracts.push(contract_15());
    contracts.push(contract_16());
    contracts.push(contract_17());
    contracts.push(contract_18());
    contracts.push(contract_19());
    contracts.push(contract_20());
    contracts.push(contract_21());
    contracts.push(contract_22());
    contracts.push(contract_23());
    proof {
        let codes = param_contract_codes();
        assert(contracts@.map_values(|c: ParamContract| c.code.spec_as_u8()) =~= codes);
        assert forall|i: int, j: int| 0 <= i < j < contracts@.len() implies
            (#[trigger] contracts@[i].code).spec_as_u8() < (#[trigger] contracts@[j].code).spec_as_u8() by {
            assert(contracts@[i].code.spec_as_u8() == codes[i]);
            assert(contracts@[j].code.spec_as_u8() == codes[j]);
        }
        assert forall|code: LintCodeTag| #[trigger] spec_param_contract(code) is Some implies
            exists|i: int| 0 <= i < contracts@.len() && contracts@[i].code == code by {
            let k: int = match code {
                LintCodeTag::EmptyParagraph => 0,
                LintCodeTag::UnknownToken => 1,
                LintCodeTag::UnknownMarker => 2,
                LintCodeTag::UnknownCloseMarker => 3,
                LintCodeTag::ContentBeforeFirstChapter => 4,
                LintCodeTag::NoteSubmarkerOutsideNote => 5,
                LintCodeTag::MetadataOutsideTarget => 6,
                LintCodeTag::MarkerNotValidInContext => 7,
                LintCodeTag::MissingMilestoneSelfClose => 8,
                LintCodeTag::StrayCloseMarker => 9,
                LintCodeTag::MisnestedCloseMarker => 10,
                LintCodeTag::ImplicitlyClosedMarker => 11,
                LintCodeTag::UnclosedMarker => 12,
                LintCodeTag::DuplicateChapterNumber => 13,
                LintCodeTag::DuplicateVerseNumber => 14,
                LintCodeTag::InvalidNumberRange => 15,
                LintCodeTag::MissingWhitespaceBeforeMarker => 16,
                LintCodeTag::MissingHorizontalWhitespaceAfterMarkerName => 17,
                LintCodeTag::MissingTagEndDelimiterAfterMarker => 18,
                LintCodeTag::MissingContentSpaceAfterCloseMarker => 19,
                LintCodeTag::VerseInSectionOrOtherParagraph => 20,
                LintCodeTag::ContentAfterBlankMarker => 21,
                LintCodeTag::InvalidBookCode => 22,
                _ => 23,
            };
            assert(contracts@[k].code == code);
        }
    }
    contracts
}

} // verus!
