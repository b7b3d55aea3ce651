//! The `<feature>` sections: API feature levels and their requirements.

use vstd::prelude::*;

use crate::attrs::{
    attrs_of, attrs_view, decode_attrs, first_err_by, found, keys_distinct, last_val,
    lemma_first_err_by_permutation_none, lemma_last_val_permutation, or_empty, opt_view,
    seq_view, Attr, AttrV,
};
use crate::attrs::{check_comment_only, classify_by_presence, comment_only_checker, spec_classify};
use crate::errors::{elem_err, end_err, malformed_err, missing_err, res_view, ErrV, ParseError};
use crate::events::{
    events_view, ev_tag, exec_ev_tag, spec_expect_end, spec_expect_text, expect_end,
    expect_text, EventV, XmlEvent,
};
use crate::utils::{
    i32_or_zero, parse_i32, parse_u32, spec_parse_i32, spec_parse_u32, str_eq, u32_or_zero,
};

verus! {

/// An API feature level and what it requires or removes.
#[derive(Debug, Clone, PartialEq, Eq)]
pub struct Feature {
    pub name: String,
    pub number: String,
    pub api: String,
    pub comment: String,
    pub requirements: Vec<Requirement>,
    pub removed_types: Vec<String>,
    pub removed_enums: Vec<String>,
    pub removed_commands: Vec<String>,
}

/// The mathematical value of a [`Feature`].
pub ghost struct FeatureV {
    pub name: Seq<char>,
    pub number: Seq<char>,
    pub api: Seq<char>,
    pub comment: Seq<char>,
    pub requirements: Seq<RequirementV>,
    pub removed_types: Seq<Seq<char>>,
    pub removed_enums: Seq<Seq<char>>,
    pub removed_commands: Seq<Seq<char>>,
}

impl View for Feature {
    type V = FeatureV;

    open spec fn view(&self) -> FeatureV {
        FeatureV {
            name: self.name@,
            number: self.number@,
            api: self.api@,
            comment: self.comment@,
            requirements: seq_view(self.requirements@),
            removed_types: seq_view(self.removed_types@),
            removed_enums: seq_view(self.removed_enums@),
            removed_commands: seq_view(self.removed_commands@),
        }
    }
}

pub open spec fn feature_pair_err(p: AttrV) -> Option<ErrV> {
    if p.key == "name"@ {
        None
    } else if p.key == "number"@ {
        None
    } else if p.key == "api"@ {
        None
    } else if p.key == "comment"@ {
        None
    } else {
        Some(ErrV::UnexpectedAttribute { key: p.key, record_kind: "Feature"@ })
    }
}

pub open spec fn feature_checker() -> spec_fn(AttrV) -> Option<ErrV> {
    |p: AttrV| feature_pair_err(p)
}

/// The attribute keys (and checked attribute values) of this record kind
/// are pairwise distinct text.
proof fn feature_key_facts()
    ensures
        "name"@ != "number"@,
        "name"@ != "api"@,
        "name"@ != "comment"@,
        "number"@ != "api"@,
        "number"@ != "comment"@,
        "api"@ != "comment"@,
{
    reveal_strlit("api");
    reveal_strlit("comment");
    reveal_strlit("name");
    reveal_strlit("number");
    assert("api"@.len() == 3);
    assert("api"@[0] == 'a');
    assert("api"@[1] == 'p');
    assert("api"@[2] == 'i');
    assert("comment"@.len() == 7);
    assert("comment"@[0] == 'c');
    assert("comment"@[1] == 'o');
    assert("comment"@[2] == 'm');
    assert("comment"@[3] == 'm');
    assert("comment"@[4] == 'e');
    assert("comment"@[5] == 'n');
    assert("comment"@[6] == 't');
    assert("name"@.len() == 4);
    assert("name"@[0] == 'n');
    assert("name"@[1] == 'a');
    assert("name"@[2] == 'm');
    assert("name"@[3] == 'e');
    assert("number"@.len() == 6);
    assert("number"@[0] == 'n');
    assert("number"@[1] == 'u');
    assert("number"@[2] == 'm');
    assert("number"@[3] == 'b');
    assert("number"@[4] == 'e');
    assert("number"@[5] == 'r');
}

/// The record built from decoded pairs: every key must be mapped, and
/// the mandatory fields must be set.
pub open spec fn feature_from_pairs(ps: Seq<AttrV>) -> Result<FeatureV, ErrV> {
    match first_err_by(ps, feature_checker()) {
        Some(e) => Err(e),
        None => if or_empty(last_val(ps, "name"@)).len() == 0 {
            Err(missing_err("name"@, "Feature"@))
        } else {
            Ok(
                FeatureV {
                    name: or_empty(last_val(ps, "name"@)),
                    number: or_empty(last_val(ps, "number"@)),
                    api: or_empty(last_val(ps, "api"@)),
                    comment: or_empty(last_val(ps, "comment"@)),
                    requirements: Seq::empty(),
                    removed_types: Seq::empty(),
                    removed_enums: Seq::empty(),
                    removed_commands: Seq::empty(),
                },
            )
        },
    }
}

impl Feature {
    /// Builds a `Feature` from decoded attribute pairs.
    #[verifier::loop_isolation(false)]
    pub fn from_pairs(pairs: &Vec<Attr>) -> (r: Result<Feature, ParseError>)
        ensures
            res_view(r) == feature_from_pairs(attrs_view(pairs@)),
    {
        let ghost aps = attrs_view(pairs@);
        let ghost f = feature_checker();
        let mut name: Option<String> = None;
        let mut number: String = String::new();
        let mut api: String = String::new();
        let mut comment: String = String::new();
        let mut idx: usize = 0;
        proof {
            assert(aps.skip(0) =~= aps);
            assert(aps.take(0) =~= Seq::<AttrV>::empty());
        }
        while idx < pairs.len()
            invariant
                idx <= pairs@.len(),
                first_err_by(aps, f) == first_err_by(aps.skip(idx as int), f),
                opt_view(name) == last_val(aps.take(idx as int), "name"@),
                number@ == or_empty(last_val(aps.take(idx as int), "number"@)),
                api@ == or_empty(last_val(aps.take(idx as int), "api"@)),
                comment@ == or_empty(last_val(aps.take(idx as int), "comment"@)),
            decreases pairs@.len() - idx,
        {
            let ghost p = aps[idx as int];
            proof {
                feature_key_facts();
                assert(p == pairs@[idx as int]@);
                assert(aps.skip(idx as int)[0] == p);
                assert(aps.skip(idx as int).drop_first() =~= aps.skip(idx as int + 1));
                assert(aps.take(idx as int + 1).drop_last() =~= aps.take(idx as int));
                assert(aps.take(idx as int + 1).last() == p);
            }
            let a = &pairs[idx];
            if str_eq(a.key.as_str(), "name") {
                name = Some(a.value.clone());
            } else if str_eq(a.key.as_str(), "number") {
                number = a.value.clone();
            } else if str_eq(a.key.as_str(), "api") {
                api = a.value.clone();
            } else if str_eq(a.key.as_str(), "comment") {
                comment = a.value.clone();
            } else {
                return Err(ParseError::UnexpectedAttribute {
                    key: a.key.clone(),
                    record_kind: "Feature".to_owned(),
                });
            }
            idx += 1;
        }
        proof {
            assert(aps.skip(pairs@.len() as int) =~= Seq::<AttrV>::empty());
            assert(aps.take(pairs@.len() as int) =~= aps);
        }
        let name = match name {
            Some(v) => v,
            None => {
                return Err(ParseError::MissingRequiredAttribute {
                    name: "name".to_owned(),
                    record_kind: "Feature".to_owned(),
                });
            },
        };
        if name.as_str().is_empty() {
            return Err(ParseError::MissingRequiredAttribute {
                name: "name".to_owned(),
                record_kind: "Feature".to_owned(),
            });
        }
        proof {
            assert(seq_view(Seq::<Requirement>::empty()) =~= Seq::<RequirementV>::empty());
            assert(seq_view(Seq::<String>::empty()) =~= Seq::<Seq<char>>::empty());
            assert(seq_view(Seq::<String>::empty()) =~= Seq::<Seq<char>>::empty());
            assert(seq_view(Seq::<String>::empty()) =~= Seq::<Seq<char>>::empty());
        }
        Ok(Feature {
            name,
            number,
            api,
            comment,
            requirements: Vec::new(),
            removed_types: Vec::new(),
            removed_enums: Vec::new(),
            removed_commands: Vec::new(),
        })
    }

    /// Builds a `Feature` from a tag's raw attribute text.
    pub fn from_attrs(attrs: &str) -> (r: Result<Feature, ParseError>)
        ensures
            res_view(r) == feature_from_pairs(attrs_of(attrs@)),
    {
        let pairs = decode_attrs(attrs);
        Feature::from_pairs(&pairs)
    }
}

/// Permuting the tag's attribute pairs never changes the
/// record built, as long as the pair list is valid: keys all distinct and
/// the record accepted.
pub proof fn lemma_feature_attr_order(ps1: Seq<AttrV>, ps2: Seq<AttrV>)
    requires
        keys_distinct(ps1),
        ps1.to_multiset() == ps2.to_multiset(),
        feature_from_pairs(ps1) is Ok,
    ensures
        feature_from_pairs(ps2) == feature_from_pairs(ps1),
{
    lemma_first_err_by_permutation_none(ps1, ps2, feature_checker());
    lemma_last_val_permutation(ps1, ps2, "name"@);
    lemma_last_val_permutation(ps1, ps2, "number"@);
    lemma_last_val_permutation(ps1, ps2, "api"@);
    lemma_last_val_permutation(ps1, ps2, "comment"@);
}

/// A `<require>` block: kind-partitioned references to types, enums and commands.
#[derive(Debug, Clone, PartialEq, Eq)]
pub struct Requirement {
    pub comment: Option<String>,
    pub depends: Option<String>,
    pub api: Option<String>,
    pub required_types: Vec<RequiredType>,
    pub required_plain_enums: Vec<RequiredEnumPlain>,
    pub required_offset_enums: Vec<RequiredEnumOffset>,
    pub required_bitpos_enums: Vec<RequiredEnumBitpos>,
    pub required_alias_enums: Vec<RequiredEnumAlias>,
    pub required_value_enums: Vec<RequiredEnumValue>,
    pub required_commands: Vec<RequiredCommand>,
}

/// The mathematical value of a [`Requirement`].
pub ghost struct RequirementV {
    pub comment: Option<Seq<char>>,
    pub depends: Option<Seq<char>>,
    pub api: Option<Seq<char>>,
    pub required_types: Seq<RequiredTypeV>,
    pub required_plain_enums: Seq<RequiredEnumPlainV>,
    pub required_offset_enums: Seq<RequiredEnumOffsetV>,
    pub required_bitpos_enums: Seq<RequiredEnumBitposV>,
    pub required_alias_enums: Seq<RequiredEnumAliasV>,
    pub required_value_enums: Seq<RequiredEnumValueV>,
    pub required_commands: Seq<RequiredCommandV>,
}

impl View for Requirement {
    type V = RequirementV;

    open spec fn view(&self) -> RequirementV {
        RequirementV {
            comment: opt_view(self.comment),
            depends: opt_view(self.depends),
            api: opt_view(self.api),
            required_types: seq_view(self.required_types@),
            required_plain_enums: seq_view(self.required_plain_enums@),
            required_offset_enums: seq_view(self.required_offset_enums@),
            required_bitpos_enums: seq_view(self.required_bitpos_enums@),
            required_alias_enums: seq_view(self.required_alias_enums@),
            required_value_enums: seq_view(self.required_value_enums@),
            required_commands: seq_view(self.required_commands@),
        }
    }
}

pub open spec fn requirement_pair_err(p: AttrV) -> Option<ErrV> {
    if p.key == "comment"@ {
        None
    } else if p.key == "depends"@ {
        None
    } else if p.key == "api"@ {
        None
    } else {
        Some(ErrV::UnexpectedAttribute { key: p.key, record_kind: "Requirement"@ })
    }
}

pub open spec fn requirement_checker() -> spec_fn(AttrV) -> Option<ErrV> {
    |p: AttrV| requirement_pair_err(p)
}

/// The attribute keys (and checked attribute values) of this record kind
/// are pairwise distinct text.
proof fn requirement_key_facts()
    ensures
        "comment"@ != "depends"@,
        "comment"@ != "api"@,
        "depends"@ != "api"@,
{
    reveal_strlit("api");
    reveal_strlit("comment");
    reveal_strlit("depends");
    assert("api"@.len() == 3);
    assert("api"@[0] == 'a');
    assert("api"@[1] == 'p');
    assert("api"@[2] == 'i');
    assert("comment"@.len() == 7);
    assert("comment"@[0] == 'c');
    assert("comment"@[1] == 'o');
    assert("comment"@[2] == 'm');
    assert("comment"@[3] == 'm');
    assert("comment"@[4] == 'e');
    assert("comment"@[5] == 'n');
    assert("comment"@[6] == 't');
    assert("depends"@.len() == 7);
    assert("depends"@[0] == 'd');
    assert("depends"@[1] == 'e');
    assert("depends"@[2] == 'p');
    assert("depends"@[3] == 'e');
    assert("depends"@[4] == 'n');
    assert("depends"@[5] == 'd');
    assert("depends"@[6] == 's');
}

/// The record built from decoded pairs: every key must be mapped, and
/// the mandatory fields must be set.
pub open spec fn requirement_from_pairs(ps: Seq<AttrV>) -> Result<RequirementV, ErrV> {
    match first_err_by(ps, requirement_checker()) {
        Some(e) => Err(e),
        None => Ok(
            RequirementV {
                comment: last_val(ps, "comment"@),
                depends: last_val(ps, "depends"@),
                api: last_val(ps, "api"@),
                required_types: Seq::empty(),
                required_plain_enums: Seq::empty(),
                required_offset_enums: Seq::empty(),
                required_bitpos_enums: Seq::empty(),
                required_alias_enums: Seq::empty(),
                required_value_enums: Seq::empty(),
                required_commands: Seq::empty(),
            },
        ),
    }
}

impl Requirement {
    /// Builds a `Requirement` from decoded attribute pairs.
    #[verifier::loop_isolation(false)]
    pub fn from_pairs(pairs: &Vec<Attr>) -> (r: Result<Requirement, ParseError>)
        ensures
            res_view(r) == requirement_from_pairs(attrs_view(pairs@)),
    {
        let ghost aps = attrs_view(pairs@);
        let ghost f = requirement_checker();
        let mut comment: Option<String> = None;
        let mut depends: Option<String> = None;
        let mut api: Option<String> = None;
        let mut idx: usize = 0;
        proof {
            assert(aps.skip(0) =~= aps);
            assert(aps.take(0) =~= Seq::<AttrV>::empty());
        }
        while idx < pairs.len()
            invariant
                idx <= pairs@.len(),
                first_err_by(aps, f) == first_err_by(aps.skip(idx as int), f),
                opt_view(comment) == last_val(aps.take(idx as int), "comment"@),
                opt_view(depends) == last_val(aps.take(idx as int), "depends"@),
                opt_view(api) == last_val(aps.take(idx as int), "api"@),
            decreases pairs@.len() - idx,
        {
            let ghost p = aps[idx as int];
            proof {
                requirement_key_facts();
                assert(p == pairs@[idx as int]@);
                assert(aps.skip(idx as int)[0] == p);
                assert(aps.skip(idx as int).drop_first() =~= aps.skip(idx as int + 1));
                assert(aps.take(idx as int + 1).drop_last() =~= aps.take(idx as int));
                assert(aps.take(idx as int + 1).last() == p);
            }
            let a = &pairs[idx];
            if str_eq(a.key.as_str(), "comment") {
                comment = Some(a.value.clone());
            } else if str_eq(a.key.as_str(), "depends") {
                depends = Some(a.value.clone());
            } else if str_eq(a.key.as_str(), "api") {
                api = Some(a.value.clone());
            } else {
                return Err(ParseError::UnexpectedAttribute {
                    key: a.key.clone(),
                    record_kind: "Requirement".to_owned(),
                });
            }
            idx += 1;
        }
        proof {
            assert(aps.skip(pairs@.len() as int) =~= Seq::<AttrV>::empty());
            assert(aps.take(pairs@.len() as int) =~= aps);
        }
        proof {
            assert(seq_view(Seq::<RequiredType>::empty()) =~= Seq::<RequiredTypeV>::empty());
            assert(seq_view(Seq::<RequiredEnumPlain>::empty()) =~= Seq::<RequiredEnumPlainV>::empty());
            assert(seq_view(Seq::<RequiredEnumOffset>::empty()) =~= Seq::<RequiredEnumOffsetV>::empty());
            assert(seq_view(Seq::<RequiredEnumBitpos>::empty()) =~= Seq::<RequiredEnumBitposV>::empty());
            assert(seq_view(Seq::<RequiredEnumAlias>::empty()) =~= Seq::<RequiredEnumAliasV>::empty());
            assert(seq_view(Seq::<RequiredEnumValue>::empty()) =~= Seq::<RequiredEnumValueV>::empty());
            assert(seq_view(Seq::<RequiredCommand>::empty()) =~= Seq::<RequiredCommandV>::empty());
        }
        Ok(Requirement {
            comment,
            depends,
            api,
            required_types: Vec::new(),
            required_plain_enums: Vec::new(),
            required_offset_enums: Vec::new(),
            required_bitpos_enums: Vec::new(),
            required_alias_enums: Vec::new(),
            required_value_enums: Vec::new(),
            required_commands: Vec::new(),
        })
    }

    /// Builds a `Requirement` from a tag's raw attribute text.
    pub fn from_attrs(attrs: &str) -> (r: Result<Requirement, ParseError>)
        ensures
            res_view(r) == requirement_from_pairs(attrs_of(attrs@)),
    {
        let pairs = decode_attrs(attrs);
        Requirement::from_pairs(&pairs)
    }
}

/// Permuting the tag's attribute pairs never changes the
/// record built, as long as the pair list is valid: keys all distinct and
/// the record accepted.
pub proof fn lemma_requirement_attr_order(ps1: Seq<AttrV>, ps2: Seq<AttrV>)
    requires
        keys_distinct(ps1),
        ps1.to_multiset() == ps2.to_multiset(),
        requirement_from_pairs(ps1) is Ok,
    ensures
        requirement_from_pairs(ps2) == requirement_from_pairs(ps1),
{
    lemma_first_err_by_permutation_none(ps1, ps2, requirement_checker());
    lemma_last_val_permutation(ps1, ps2, "comment"@);
    lemma_last_val_permutation(ps1, ps2, "depends"@);
    lemma_last_val_permutation(ps1, ps2, "api"@);
}

/// A required type, referenced by name.
#[derive(Debug, Clone, PartialEq, Eq)]
pub struct RequiredType {
    pub name: String,
    pub comment: Option<String>,
}

/// The mathematical value of a [`RequiredType`].
pub ghost struct RequiredTypeV {
    pub name: Seq<char>,
    pub comment: Option<Seq<char>>,
}

impl View for RequiredType {
    type V = RequiredTypeV;

    open spec fn view(&self) -> RequiredTypeV {
        RequiredTypeV {
            name: self.name@,
            comment: opt_view(self.comment),
        }
    }
}

pub open spec fn required_type_pair_err(p: AttrV) -> Option<ErrV> {
    if p.key == "name"@ {
        None
    } else if p.key == "comment"@ {
        None
    } else {
        Some(ErrV::UnexpectedAttribute { key: p.key, record_kind: "RequiredType"@ })
    }
}

pub open spec fn required_type_checker() -> spec_fn(AttrV) -> Option<ErrV> {
    |p: AttrV| required_type_pair_err(p)
}

/// The attribute keys (and checked attribute values) of this record kind
/// are pairwise distinct text.
proof fn required_type_key_facts()
    ensures
        "name"@ != "comment"@,
{
    reveal_strlit("comment");
    reveal_strlit("name");
    assert("comment"@.len() == 7);
    assert("comment"@[0] == 'c');
    assert("comment"@[1] == 'o');
    assert("comment"@[2] == 'm');
    assert("comment"@[3] == 'm');
    assert("comment"@[4] == 'e');
    assert("comment"@[5] == 'n');
    assert("comment"@[6] == 't');
    assert("name"@.len() == 4);
    assert("name"@[0] == 'n');
    assert("name"@[1] == 'a');
    assert("name"@[2] == 'm');
    assert("name"@[3] == 'e');
}

/// The record built from decoded pairs: every key must be mapped, and
/// the mandatory fields must be set.
pub open spec fn required_type_from_pairs(ps: Seq<AttrV>) -> Result<RequiredTypeV, ErrV> {
    match first_err_by(ps, required_type_checker()) {
        Some(e) => Err(e),
        None => if or_empty(last_val(ps, "name"@)).len() == 0 {
            Err(missing_err("name"@, "RequiredType"@))
        } else {
            Ok(
                RequiredTypeV {
                    name: or_empty(last_val(ps, "name"@)),
                    comment: last_val(ps, "comment"@),
                },
            )
        },
    }
}

impl RequiredType {
    /// Builds a `RequiredType` from decoded attribute pairs.
    #[verifier::loop_isolation(false)]
    pub fn from_pairs(pairs: &Vec<Attr>) -> (r: Result<RequiredType, ParseError>)
        ensures
            res_view(r) == required_type_from_pairs(attrs_view(pairs@)),
    {
        let ghost aps = attrs_view(pairs@);
        let ghost f = required_type_checker();
        let mut name: Option<String> = None;
        let mut comment: Option<String> = None;
        let mut idx: usize = 0;
        proof {
            assert(aps.skip(0) =~= aps);
            assert(aps.take(0) =~= Seq::<AttrV>::empty());
        }
        while idx < pairs.len()
            invariant
                idx <= pairs@.len(),
                first_err_by(aps, f) == first_err_by(aps.skip(idx as int), f),
                opt_view(name) == last_val(aps.take(idx as int), "name"@),
                opt_view(comment) == last_val(aps.take(idx as int), "comment"@),
            decreases pairs@.len() - idx,
        {
            let ghost p = aps[idx as int];
            proof {
                required_type_key_facts();
                assert(p == pairs@[idx as int]@);
                assert(aps.skip(idx as int)[0] == p);
                assert(aps.skip(idx as int).drop_first() =~= aps.skip(idx as int + 1));
                assert(aps.take(idx as int + 1).drop_last() =~= aps.take(idx as int));
                assert(aps.take(idx as int + 1).last() == p);
            }
            let a = &pairs[idx];
            if str_eq(a.key.as_str(), "name") {
                name = Some(a.value.clone());
            } else if str_eq(a.key.as_str(), "comment") {
                comment = Some(a.value.clone());
            } else {
                return Err(ParseError::UnexpectedAttribute {
                    key: a.key.clone(),
                    record_kind: "RequiredType".to_owned(),
                });
            }
            idx += 1;
        }
        proof {
            assert(aps.skip(pairs@.len() as int) =~= Seq::<AttrV>::empty());
            assert(aps.take(pairs@.len() as int) =~= aps);
        }
        let name = match name {
            Some(v) => v,
            None => {
                return Err(ParseError::MissingRequiredAttribute {
                    name: "name".to_owned(),
                    record_kind: "RequiredType".to_owned(),
                });
            },
        };
        if name.as_str().is_empty() {
            return Err(ParseError::MissingRequiredAttribute {
                name: "name".to_owned(),
                record_kind: "RequiredType".to_owned(),
            });
        }
        Ok(RequiredType {
            name,
            comment,
        })
    }

    /// Builds a `RequiredType` from a tag's raw attribute text.
    pub fn from_attrs(attrs: &str) -> (r: Result<RequiredType, ParseError>)
        ensures
            res_view(r) == required_type_from_pairs(attrs_of(attrs@)),
    {
        let pairs = decode_attrs(attrs);
        RequiredType::from_pairs(&pairs)
    }
}

/// Permuting the tag's attribute pairs never changes the
/// record built, as long as the pair list is valid: keys all distinct and
/// the record accepted.
pub proof fn lemma_required_type_attr_order(ps1: Seq<AttrV>, ps2: Seq<AttrV>)
    requires
        keys_distinct(ps1),
        ps1.to_multiset() == ps2.to_multiset(),
        required_type_from_pairs(ps1) is Ok,
    ensures
        required_type_from_pairs(ps2) == required_type_from_pairs(ps1),
{
    lemma_first_err_by_permutation_none(ps1, ps2, required_type_checker());
    lemma_last_val_permutation(ps1, ps2, "name"@);
    lemma_last_val_permutation(ps1, ps2, "comment"@);
}

/// A required enum entry with no disambiguating attribute.
#[derive(Debug, Clone, PartialEq, Eq)]
pub struct RequiredEnumPlain {
    pub name: String,
    pub comment: Option<String>,
}

/// The mathematical value of a [`RequiredEnumPlain`].
pub ghost struct RequiredEnumPlainV {
    pub name: Seq<char>,
    pub comment: Option<Seq<char>>,
}

impl View for RequiredEnumPlain {
    type V = RequiredEnumPlainV;

    open spec fn view(&self) -> RequiredEnumPlainV {
        RequiredEnumPlainV {
            name: self.name@,
            comment: opt_view(self.comment),
        }
    }
}

pub open spec fn required_enum_plain_pair_err(p: AttrV) -> Option<ErrV> {
    if p.key == "name"@ {
        None
    } else if p.key == "comment"@ {
        None
    } else {
        Some(ErrV::UnexpectedAttribute { key: p.key, record_kind: "RequiredEnumPlain"@ })
    }
}

pub open spec fn required_enum_plain_checker() -> spec_fn(AttrV) -> Option<ErrV> {
    |p: AttrV| required_enum_plain_pair_err(p)
}

/// The attribute keys (and checked attribute values) of this record kind
/// are pairwise distinct text.
proof fn required_enum_plain_key_facts()
    ensures
        "name"@ != "comment"@,
{
    reveal_strlit("comment");
    reveal_strlit("name");
    assert("comment"@.len() == 7);
    assert("comment"@[0] == 'c');
    assert("comment"@[1] == 'o');
    assert("comment"@[2] == 'm');
    assert("comment"@[3] == 'm');
    assert("comment"@[4] == 'e');
    assert("comment"@[5] == 'n');
    assert("comment"@[6] == 't');
    assert("name"@.len() == 4);
    assert("name"@[0] == 'n');
    assert("name"@[1] == 'a');
    assert("name"@[2] == 'm');
    assert("name"@[3] == 'e');
}

/// The record built from decoded pairs: every key must be mapped, and
/// the mandatory fields must be set.
pub open spec fn required_enum_plain_from_pairs(ps: Seq<AttrV>) -> Result<RequiredEnumPlainV, ErrV> {
    match first_err_by(ps, required_enum_plain_checker()) {
        Some(e) => Err(e),
        None => if or_empty(last_val(ps, "name"@)).len() == 0 {
            Err(missing_err("name"@, "RequiredEnumPlain"@))
        } else {
            Ok(
                RequiredEnumPlainV {
                    name: or_empty(last_val(ps, "name"@)),
                    comment: last_val(ps, "comment"@),
                },
            )
        },
    }
}

impl RequiredEnumPlain {
    /// Builds a `RequiredEnumPlain` from decoded attribute pairs.
    #[verifier::loop_isolation(false)]
    pub fn from_pairs(pairs: &Vec<Attr>) -> (r: Result<RequiredEnumPlain, ParseError>)
        ensures
            res_view(r) == required_enum_plain_from_pairs(attrs_view(pairs@)),
    {
        let ghost aps = attrs_view(pairs@);
        let ghost f = required_enum_plain_checker();
        let mut name: Option<String> = None;
        let mut comment: Option<String> = None;
        let mut idx: usize = 0;
        proof {
            assert(aps.skip(0) =~= aps);
            assert(aps.take(0) =~= Seq::<AttrV>::empty());
        }
        while idx < pairs.len()
            invariant
                idx <= pairs@.len(),
                first_err_by(aps, f) == first_err_by(aps.skip(idx as int), f),
                opt_view(name) == last_val(aps.take(idx as int), "name"@),
                opt_view(comment) == last_val(aps.take(idx as int), "comment"@),
            decreases pairs@.len() - idx,
        {
            let ghost p = aps[idx as int];
            proof {
                required_enum_plain_key_facts();
                assert(p == pairs@[idx as int]@);
                assert(aps.skip(idx as int)[0] == p);
                assert(aps.skip(idx as int).drop_first() =~= aps.skip(idx as int + 1));
                assert(aps.take(idx as int + 1).drop_last() =~= aps.take(idx as int));
                assert(aps.take(idx as int + 1).last() == p);
            }
            let a = &pairs[idx];
            if str_eq(a.key.as_str(), "name") {
                name = Some(a.value.clone());
            } else if str_eq(a.key.as_str(), "comment") {
                comment = Some(a.value.clone());
            } else {
                return Err(ParseError::UnexpectedAttribute {
                    key: a.key.clone(),
                    record_kind: "RequiredEnumPlain".to_owned(),
                });
            }
            idx += 1;
        }
        proof {
            assert(aps.skip(pairs@.len() as int) =~= Seq::<AttrV>::empty());
            assert(aps.take(pairs@.len() as int) =~= aps);
        }
        let name = match name {
            Some(v) => v,
            None => {
                return Err(ParseError::MissingRequiredAttribute {
                    name: "name".to_owned(),
                    record_kind: "RequiredEnumPlain".to_owned(),
                });
            },
        };
        if name.as_str().is_empty() {
            return Err(ParseError::MissingRequiredAttribute {
                name: "name".to_owned(),
                record_kind: "RequiredEnumPlain".to_owned(),
            });
        }
        Ok(RequiredEnumPlain {
            name,
            comment,
        })
    }

    /// Builds a `RequiredEnumPlain` from a tag's raw attribute text.
    pub fn from_attrs(attrs: &str) -> (r: Result<RequiredEnumPlain, ParseError>)
        ensures
            res_view(r) == required_enum_plain_from_pairs(attrs_of(attrs@)),
    {
        let pairs = decode_attrs(attrs);
        RequiredEnumPlain::from_pairs(&pairs)
    }
}

/// Permuting the tag's attribute pairs never changes the
/// record built, as long as the pair list is valid: keys all distinct and
/// the record accepted.
pub proof fn lemma_required_enum_plain_attr_order(ps1: Seq<AttrV>, ps2: Seq<AttrV>)
    requires
        keys_distinct(ps1),
        ps1.to_multiset() == ps2.to_multiset(),
        required_enum_plain_from_pairs(ps1) is Ok,
    ensures
        required_enum_plain_from_pairs(ps2) == required_enum_plain_from_pairs(ps1),
{
    lemma_first_err_by_permutation_none(ps1, ps2, required_enum_plain_checker());
    lemma_last_val_permutation(ps1, ps2, "name"@);
    lemma_last_val_permutation(ps1, ps2, "comment"@);
}

/// A required enum entry defined by an extension-relative offset.
#[derive(Debug, Clone, PartialEq, Eq)]
pub struct RequiredEnumOffset {
    pub name: String,
    pub comment: Option<String>,
    pub extends: String,
    pub extension_number: i32,
    pub offset: i32,
    pub is_negative: bool,
    pub api: Option<String>,
    pub protect: Option<String>,
}

/// The mathematical value of a [`RequiredEnumOffset`].
pub ghost struct RequiredEnumOffsetV {
    pub name: Seq<char>,
    pub comment: Option<Seq<char>>,
    pub extends: Seq<char>,
    pub extension_number: i32,
    pub offset: i32,
    pub is_negative: bool,
    pub api: Option<Seq<char>>,
    pub protect: Option<Seq<char>>,
}

impl View for RequiredEnumOffset {
    type V = RequiredEnumOffsetV;

    open spec fn view(&self) -> RequiredEnumOffsetV {
        RequiredEnumOffsetV {
            name: self.name@,
            comment: opt_view(self.comment),
            extends: self.extends@,
            extension_number: self.extension_number,
            offset: self.offset,
            is_negative: self.is_negative,
            api: opt_view(self.api),
            protect: opt_view(self.protect),
        }
    }
}

pub open spec fn required_enum_offset_pair_err(p: AttrV) -> Option<ErrV> {
    if p.key == "name"@ {
        None
    } else if p.key == "comment"@ {
        None
    } else if p.key == "extends"@ {
        None
    } else if p.key == "extnumber"@ {
        if spec_parse_i32(p.value) is Some {
                None
            } else {
                Some(malformed_err("extnumber"@, p.value))
            }
    } else if p.key == "offset"@ {
        if spec_parse_i32(p.value) is Some {
                None
            } else {
                Some(malformed_err("offset"@, p.value))
            }
    } else if p.key == "dir"@ {
        if p.value == "-"@ {
                None
            } else {
                Some(malformed_err("dir"@, p.value))
            }
    } else if p.key == "api"@ {
        None
    } else if p.key == "protect"@ {
        None
    } else {
        Some(ErrV::UnexpectedAttribute { key: p.key, record_kind: "RequiredEnumOffset"@ })
    }
}

pub open spec fn required_enum_offset_checker() -> spec_fn(AttrV) -> Option<ErrV> {
    |p: AttrV| required_enum_offset_pair_err(p)
}

/// The attribute keys (and checked attribute values) of this record kind
/// are pairwise distinct text.
proof fn required_enum_offset_key_facts()
    ensures
        "name"@ != "comment"@,
        "name"@ != "extends"@,
        "name"@ != "extnumber"@,
        "name"@ != "offset"@,
        "name"@ != "dir"@,
        "name"@ != "api"@,
        "name"@ != "protect"@,
        "comment"@ != "extends"@,
        "comment"@ != "extnumber"@,
        "comment"@ != "offset"@,
        "comment"@ != "dir"@,
        "comment"@ != "api"@,
        "comment"@ != "protect"@,
        "extends"@ != "extnumber"@,
        "extends"@ != "offset"@,
        "extends"@ != "dir"@,
        "extends"@ != "api"@,
        "extends"@ != "protect"@,
        "extnumber"@ != "offset"@,
        "extnumber"@ != "dir"@,
        "extnumber"@ != "api"@,
        "extnumber"@ != "protect"@,
        "offset"@ != "dir"@,
        "offset"@ != "api"@,
        "offset"@ != "protect"@,
        "dir"@ != "api"@,
        "dir"@ != "protect"@,
        "api"@ != "protect"@,
{
    reveal_strlit("-");
    reveal_strlit("api");
    reveal_strlit("comment");
    reveal_strlit("dir");
    reveal_strlit("extends");
    reveal_strlit("extnumber");
    reveal_strlit("name");
    reveal_strlit("offset");
    reveal_strlit("protect");
    assert("-"@.len() == 1);
    assert("-"@[0] == '-');
    assert("api"@.len() == 3);
    assert("api"@[0] == 'a');
    assert("api"@[1] == 'p');
    assert("api"@[2] == 'i');
    assert("comment"@.len() == 7);
    assert("comment"@[0] == 'c');
    assert("comment"@[1] == 'o');
    assert("comment"@[2] == 'm');
    assert("comment"@[3] == 'm');
    assert("comment"@[4] == 'e');
    assert("comment"@[5] == 'n');
    assert("comment"@[6] == 't');
    assert("dir"@.len() == 3);
    assert("dir"@[0] == 'd');
    assert("dir"@[1] == 'i');
    assert("dir"@[2] == 'r');
    assert("extends"@.len() == 7);
    assert("extends"@[0] == 'e');
    assert("extends"@[1] == 'x');
    assert("extends"@[2] == 't');
    assert("extends"@[3] == 'e');
    assert("extends"@[4] == 'n');
    assert("extends"@[5] == 'd');
    assert("extends"@[6] == 's');
    assert("extnumber"@.len() == 9);
    assert("extnumber"@[0] == 'e');
    assert("extnumber"@[1] == 'x');
    assert("extnumber"@[2] == 't');
    assert("extnumber"@[3] == 'n');
    assert("extnumber"@[4] == 'u');
    assert("extnumber"@[5] == 'm');
    assert("extnumber"@[6] == 'b');
    assert("extnumber"@[7] == 'e');
    assert("extnumber"@[8] == 'r');
    assert("name"@.len() == 4);
    assert("name"@[0] == 'n');
    assert("name"@[1] == 'a');
    assert("name"@[2] == 'm');
    assert("name"@[3] == 'e');
    assert("offset"@.len() == 6);
    assert("offset"@[0] == 'o');
    assert("offset"@[1] == 'f');
    assert("offset"@[2] == 'f');
    assert("offset"@[3] == 's');
    assert("offset"@[4] == 'e');
    assert("offset"@[5] == 't');
    assert("protect"@.len() == 7);
    assert("protect"@[0] == 'p');
    assert("protect"@[1] == 'r');
    assert("protect"@[2] == 'o');
    assert("protect"@[3] == 't');
    assert("protect"@[4] == 'e');
    assert("protect"@[5] == 'c');
    assert("protect"@[6] == 't');
}

/// The record built from decoded pairs: every key must be mapped, and
/// the mandatory fields must be set.
pub open spec fn required_enum_offset_from_pairs(ps: Seq<AttrV>) -> Result<RequiredEnumOffsetV, ErrV> {
    match first_err_by(ps, required_enum_offset_checker()) {
        Some(e) => Err(e),
        None => if or_empty(last_val(ps, "name"@)).len() == 0 {
            Err(missing_err("name"@, "RequiredEnumOffset"@))
        } else {
            Ok(
                RequiredEnumOffsetV {
                    name: or_empty(last_val(ps, "name"@)),
                    comment: last_val(ps, "comment"@),
                    extends: or_empty(last_val(ps, "extends"@)),
                    extension_number: i32_or_zero(last_val(ps, "extnumber"@)),
                    offset: i32_or_zero(last_val(ps, "offset"@)),
                    is_negative: found(ps, "dir"@),
                    api: last_val(ps, "api"@),
                    protect: last_val(ps, "protect"@),
                },
            )
        },
    }
}

impl RequiredEnumOffset {
    /// Builds a `RequiredEnumOffset` from decoded attribute pairs.
    #[verifier::loop_isolation(false)]
    pub fn from_pairs(pairs: &Vec<Attr>) -> (r: Result<RequiredEnumOffset, ParseError>)
        ensures
            res_view(r) == required_enum_offset_from_pairs(attrs_view(pairs@)),
    {
        let ghost aps = attrs_view(pairs@);
        let ghost f = required_enum_offset_checker();
        let mut name: Option<String> = None;
        let mut comment: Option<String> = None;
        let mut extends: String = String::new();
        let mut extension_number: i32 = 0;
        let mut offset: i32 = 0;
        let mut is_negative: bool = false;
        let mut api: Option<String> = None;
        let mut protect: Option<String> = None;
        let mut idx: usize = 0;
        proof {
            assert(aps.skip(0) =~= aps);
            assert(aps.take(0) =~= Seq::<AttrV>::empty());
        }
        while idx < pairs.len()
            invariant
                idx <= pairs@.len(),
                first_err_by(aps, f) == first_err_by(aps.skip(idx as int), f),
                opt_view(name) == last_val(aps.take(idx as int), "name"@),
                opt_view(comment) == last_val(aps.take(idx as int), "comment"@),
                extends@ == or_empty(last_val(aps.take(idx as int), "extends"@)),
                extension_number == i32_or_zero(last_val(aps.take(idx as int), "extnumber"@)),
                offset == i32_or_zero(last_val(aps.take(idx as int), "offset"@)),
                is_negative == found(aps.take(idx as int), "dir"@),
                opt_view(api) == last_val(aps.take(idx as int), "api"@),
                opt_view(protect) == last_val(aps.take(idx as int), "protect"@),
            decreases pairs@.len() - idx,
        {
            let ghost p = aps[idx as int];
            proof {
                required_enum_offset_key_facts();
                assert(p == pairs@[idx as int]@);
                assert(aps.skip(idx as int)[0] == p);
                assert(aps.skip(idx as int).drop_first() =~= aps.skip(idx as int + 1));
                assert(aps.take(idx as int + 1).drop_last() =~= aps.take(idx as int));
                assert(aps.take(idx as int + 1).last() == p);
            }
            let a = &pairs[idx];
            if str_eq(a.key.as_str(), "name") {
                name = Some(a.value.clone());
            } else if str_eq(a.key.as_str(), "comment") {
                comment = Some(a.value.clone());
            } else if str_eq(a.key.as_str(), "extends") {
                extends = a.value.clone();
            } else if str_eq(a.key.as_str(), "extnumber") {
                match parse_i32(a.value.as_str()) {
                    Some(n) => {
                        extension_number = n;
                    },
                    None => {
                        return Err(ParseError::MalformedAttributeValue {
                        key: a.key.clone(),
                        raw_value: a.value.clone(),
                    });
                    },
                }
            } else if str_eq(a.key.as_str(), "offset") {
                match parse_i32(a.value.as_str()) {
                    Some(n) => {
                        offset = n;
                    },
                    None => {
                        return Err(ParseError::MalformedAttributeValue {
                        key: a.key.clone(),
                        raw_value: a.value.clone(),
                    });
                    },
                }
            } else if str_eq(a.key.as_str(), "dir") {
                if str_eq(a.value.as_str(), "-") {
                    is_negative = true;
                } else {
                    return Err(ParseError::MalformedAttributeValue {
                        key: a.key.clone(),
                        raw_value: a.value.clone(),
                    });
                }
            } else if str_eq(a.key.as_str(), "api") {
                api = Some(a.value.clone());
            } else if str_eq(a.key.as_str(), "protect") {
                protect = Some(a.value.clone());
            } else {
                return Err(ParseError::UnexpectedAttribute {
                    key: a.key.clone(),
                    record_kind: "RequiredEnumOffset".to_owned(),
                });
            }
            idx += 1;
        }
        proof {
            assert(aps.skip(pairs@.len() as int) =~= Seq::<AttrV>::empty());
            assert(aps.take(pairs@.len() as int) =~= aps);
        }
        let name = match name {
            Some(v) => v,
            None => {
                return Err(ParseError::MissingRequiredAttribute {
                    name: "name".to_owned(),
                    record_kind: "RequiredEnumOffset".to_owned(),
                });
            },
        };
        if name.as_str().is_empty() {
            return Err(ParseError::MissingRequiredAttribute {
                name: "name".to_owned(),
                record_kind: "RequiredEnumOffset".to_owned(),
            });
        }
        Ok(RequiredEnumOffset {
            name,
            comment,
            extends,
            extension_number,
            offset,
            is_negative,
            api,
            protect,
        })
    }

    /// Builds a `RequiredEnumOffset` from a tag's raw attribute text.
    pub fn from_attrs(attrs: &str) -> (r: Result<RequiredEnumOffset, ParseError>)
        ensures
            res_view(r) == required_enum_offset_from_pairs(attrs_of(attrs@)),
    {
        let pairs = decode_attrs(attrs);
        RequiredEnumOffset::from_pairs(&pairs)
    }
}

/// Permuting the tag's attribute pairs never changes the
/// record built, as long as the pair list is valid: keys all distinct and
/// the record accepted.
pub proof fn lemma_required_enum_offset_attr_order(ps1: Seq<AttrV>, ps2: Seq<AttrV>)
    requires
        keys_distinct(ps1),
        ps1.to_multiset() == ps2.to_multiset(),
        required_enum_offset_from_pairs(ps1) is Ok,
    ensures
        required_enum_offset_from_pairs(ps2) == required_enum_offset_from_pairs(ps1),
{
    lemma_first_err_by_permutation_none(ps1, ps2, required_enum_offset_checker());
    lemma_last_val_permutation(ps1, ps2, "name"@);
    lemma_last_val_permutation(ps1, ps2, "comment"@);
    lemma_last_val_permutation(ps1, ps2, "extends"@);
    lemma_last_val_permutation(ps1, ps2, "extnumber"@);
    lemma_last_val_permutation(ps1, ps2, "offset"@);
    lemma_last_val_permutation(ps1, ps2, "dir"@);
    lemma_last_val_permutation(ps1, ps2, "api"@);
    lemma_last_val_permutation(ps1, ps2, "protect"@);
}

/// A required enum entry defined by a bit position.
#[derive(Debug, Clone, PartialEq, Eq)]
pub struct RequiredEnumBitpos {
    pub name: String,
    pub comment: Option<String>,
    pub bitpos: u32,
    pub extends: String,
    pub protect: Option<String>,
}

/// The mathematical value of a [`RequiredEnumBitpos`].
pub ghost struct RequiredEnumBitposV {
    pub name: Seq<char>,
    pub comment: Option<Seq<char>>,
    pub bitpos: u32,
    pub extends: Seq<char>,
    pub protect: Option<Seq<char>>,
}

impl View for RequiredEnumBitpos {
    type V = RequiredEnumBitposV;

    open spec fn view(&self) -> RequiredEnumBitposV {
        RequiredEnumBitposV {
            name: self.name@,
            comment: opt_view(self.comment),
            bitpos: self.bitpos,
            extends: self.extends@,
            protect: opt_view(self.protect),
        }
    }
}

pub open spec fn required_enum_bitpos_pair_err(p: AttrV) -> Option<ErrV> {
    if p.key == "name"@ {
        None
    } else if p.key == "comment"@ {
        None
    } else if p.key == "bitpos"@ {
        if spec_parse_u32(p.value) is Some {
                None
            } else {
                Some(malformed_err("bitpos"@, p.value))
            }
    } else if p.key == "extends"@ {
        None
    } else if p.key == "protect"@ {
        None
    } else {
        Some(ErrV::UnexpectedAttribute { key: p.key, record_kind: "RequiredEnumBitpos"@ })
    }
}

pub open spec fn required_enum_bitpos_checker() -> spec_fn(AttrV) -> Option<ErrV> {
    |p: AttrV| required_enum_bitpos_pair_err(p)
}

/// The attribute keys (and checked attribute values) of this record kind
/// are pairwise distinct text.
proof fn required_enum_bitpos_key_facts()
    ensures
        "name"@ != "comment"@,
        "name"@ != "bitpos"@,
        "name"@ != "extends"@,
        "name"@ != "protect"@,
        "comment"@ != "bitpos"@,
        "comment"@ != "extends"@,
        "comment"@ != "protect"@,
        "bitpos"@ != "extends"@,
        "bitpos"@ != "protect"@,
        "extends"@ != "protect"@,
{
    reveal_strlit("bitpos");
    reveal_strlit("comment");
    reveal_strlit("extends");
    reveal_strlit("name");
    reveal_strlit("protect");
    assert("bitpos"@.len() == 6);
    assert("bitpos"@[0] == 'b');
    assert("bitpos"@[1] == 'i');
    assert("bitpos"@[2] == 't');
    assert("bitpos"@[3] == 'p');
    assert("bitpos"@[4] == 'o');
    assert("bitpos"@[5] == 's');
    assert("comment"@.len() == 7);
    assert("comment"@[0] == 'c');
    assert("comment"@[1] == 'o');
    assert("comment"@[2] == 'm');
    assert("comment"@[3] == 'm');
    assert("comment"@[4] == 'e');
    assert("comment"@[5] == 'n');
    assert("comment"@[6] == 't');
    assert("extends"@.len() == 7);
    assert("extends"@[0] == 'e');
    assert("extends"@[1] == 'x');
    assert("extends"@[2] == 't');
    assert("extends"@[3] == 'e');
    assert("extends"@[4] == 'n');
    assert("extends"@[5] == 'd');
    assert("extends"@[6] == 's');
    assert("name"@.len() == 4);
    assert("name"@[0] == 'n');
    assert("name"@[1] == 'a');
    assert("name"@[2] == 'm');
    assert("name"@[3] == 'e');
    assert("protect"@.len() == 7);
    assert("protect"@[0] == 'p');
    assert("protect"@[1] == 'r');
    assert("protect"@[2] == 'o');
    assert("protect"@[3] == 't');
    assert("protect"@[4] == 'e');
    assert("protect"@[5] == 'c');
    assert("protect"@[6] == 't');
}

/// The record built from decoded pairs: every key must be mapped, and
/// the mandatory fields must be set.
pub open spec fn required_enum_bitpos_from_pairs(ps: Seq<AttrV>) -> Result<RequiredEnumBitposV, ErrV> {
    match first_err_by(ps, required_enum_bitpos_checker()) {
        Some(e) => Err(e),
        None => if or_empty(last_val(ps, "name"@)).len() == 0 {
            Err(missing_err("name"@, "RequiredEnumBitpos"@))
        } else {
            Ok(
                RequiredEnumBitposV {
                    name: or_empty(last_val(ps, "name"@)),
                    comment: last_val(ps, "comment"@),
                    bitpos: u32_or_zero(last_val(ps, "bitpos"@)),
                    extends: or_empty(last_val(ps, "extends"@)),
                    protect: last_val(ps, "protect"@),
                },
            )
        },
    }
}

impl RequiredEnumBitpos {
    /// Builds a `RequiredEnumBitpos` from decoded attribute pairs.
    #[verifier::loop_isolation(false)]
    pub fn from_pairs(pairs: &Vec<Attr>) -> (r: Result<RequiredEnumBitpos, ParseError>)
        ensures
            res_view(r) == required_enum_bitpos_from_pairs(attrs_view(pairs@)),
    {
        let ghost aps = attrs_view(pairs@);
        let ghost f = required_enum_bitpos_checker();
        let mut name: Option<String> = None;
        let mut comment: Option<String> = None;
        let mut bitpos: u32 = 0;
        let mut extends: String = String::new();
        let mut protect: Option<String> = None;
        let mut idx: usize = 0;
        proof {
            assert(aps.skip(0) =~= aps);
            assert(aps.take(0) =~= Seq::<AttrV>::empty());
        }
        while idx < pairs.len()
            invariant
                idx <= pairs@.len(),
                first_err_by(aps, f) == first_err_by(aps.skip(idx as int), f),
                opt_view(name) == last_val(aps.take(idx as int), "name"@),
                opt_view(comment) == last_val(aps.take(idx as int), "comment"@),
                bitpos == u32_or_zero(last_val(aps.take(idx as int), "bitpos"@)),
                extends@ == or_empty(last_val(aps.take(idx as int), "extends"@)),
                opt_view(protect) == last_val(aps.take(idx as int), "protect"@),
            decreases pairs@.len() - idx,
        {
            let ghost p = aps[idx as int];
            proof {
                required_enum_bitpos_key_facts();
                assert(p == pairs@[idx as int]@);
                assert(aps.skip(idx as int)[0] == p);
                assert(aps.skip(idx as int).drop_first() =~= aps.skip(idx as int + 1));
                assert(aps.take(idx as int + 1).drop_last() =~= aps.take(idx as int));
                assert(aps.take(idx as int + 1).last() == p);
            }
            let a = &pairs[idx];
            if str_eq(a.key.as_str(), "name") {
                name = Some(a.value.clone());
            } else if str_eq(a.key.as_str(), "comment") {
                comment = Some(a.value.clone());
            } else if str_eq(a.key.as_str(), "bitpos") {
                match parse_u32(a.value.as_str()) {
                    Some(n) => {
                        bitpos = n;
                    },
                    None => {
                        return Err(ParseError::MalformedAttributeValue {
                        key: a.key.clone(),
                        raw_value: a.value.clone(),
                    });
                    },
                }
            } else if str_eq(a.key.as_str(), "extends") {
                extends = a.value.clone();
            } else if str_eq(a.key.as_str(), "protect") {
                protect = Some(a.value.clone());
            } else {
                return Err(ParseError::UnexpectedAttribute {
                    key: a.key.clone(),
                    record_kind: "RequiredEnumBitpos".to_owned(),
                });
            }
            idx += 1;
        }
        proof {
            assert(aps.skip(pairs@.len() as int) =~= Seq::<AttrV>::empty());
            assert(aps.take(pairs@.len() as int) =~= aps);
        }
        let name = match name {
            Some(v) => v,
            None => {
                return Err(ParseError::MissingRequiredAttribute {
                    name: "name".to_owned(),
                    record_kind: "RequiredEnumBitpos".to_owned(),
                });
            },
        };
        if name.as_str().is_empty() {
            return Err(ParseError::MissingRequiredAttribute {
                name: "name".to_owned(),
                record_kind: "RequiredEnumBitpos".to_owned(),
            });
        }
        Ok(RequiredEnumBitpos {
            name,
            comment,
            bitpos,
            extends,
            protect,
        })
    }

    /// Builds a `RequiredEnumBitpos` from a tag's raw attribute text.
    pub fn from_attrs(attrs: &str) -> (r: Result<RequiredEnumBitpos, ParseError>)
        ensures
            res_view(r) == required_enum_bitpos_from_pairs(attrs_of(attrs@)),
    {
        let pairs = decode_attrs(attrs);
        RequiredEnumBitpos::from_pairs(&pairs)
    }
}

/// Permuting the tag's attribute pairs never changes the
/// record built, as long as the pair list is valid: keys all distinct and
/// the record accepted.
pub proof fn lemma_required_enum_bitpos_attr_order(ps1: Seq<AttrV>, ps2: Seq<AttrV>)
    requires
        keys_distinct(ps1),
        ps1.to_multiset() == ps2.to_multiset(),
        required_enum_bitpos_from_pairs(ps1) is Ok,
    ensures
        required_enum_bitpos_from_pairs(ps2) == required_enum_bitpos_from_pairs(ps1),
{
    lemma_first_err_by_permutation_none(ps1, ps2, required_enum_bitpos_checker());
    lemma_last_val_permutation(ps1, ps2, "name"@);
    lemma_last_val_permutation(ps1, ps2, "comment"@);
    lemma_last_val_permutation(ps1, ps2, "bitpos"@);
    lemma_last_val_permutation(ps1, ps2, "extends"@);
    lemma_last_val_permutation(ps1, ps2, "protect"@);
}

/// A required enum entry that stands for another entry by name.
#[derive(Debug, Clone, PartialEq, Eq)]
pub struct RequiredEnumAlias {
    pub name: String,
    pub comment: Option<String>,
    pub extends: Option<String>,
    pub alias_of: String,
    pub api: Option<String>,
    pub deprecated: Option<String>,
}

/// The mathematical value of a [`RequiredEnumAlias`].
pub ghost struct RequiredEnumAliasV {
    pub name: Seq<char>,
    pub comment: Option<Seq<char>>,
    pub extends: Option<Seq<char>>,
    pub alias_of: Seq<char>,
    pub api: Option<Seq<char>>,
    pub deprecated: Option<Seq<char>>,
}

impl View for RequiredEnumAlias {
    type V = RequiredEnumAliasV;

    open spec fn view(&self) -> RequiredEnumAliasV {
        RequiredEnumAliasV {
            name: self.name@,
            comment: opt_view(self.comment),
            extends: opt_view(self.extends),
            alias_of: self.alias_of@,
            api: opt_view(self.api),
            deprecated: opt_view(self.deprecated),
        }
    }
}

pub open spec fn required_enum_alias_pair_err(p: AttrV) -> Option<ErrV> {
    if p.key == "name"@ {
        None
    } else if p.key == "comment"@ {
        None
    } else if p.key == "extends"@ {
        None
    } else if p.key == "alias"@ {
        None
    } else if p.key == "api"@ {
        None
    } else if p.key == "deprecated"@ {
        None
    } else {
        Some(ErrV::UnexpectedAttribute { key: p.key, record_kind: "RequiredEnumAlias"@ })
    }
}

pub open spec fn required_enum_alias_checker() -> spec_fn(AttrV) -> Option<ErrV> {
    |p: AttrV| required_enum_alias_pair_err(p)
}

/// The attribute keys (and checked attribute values) of this record kind
/// are pairwise distinct text.
proof fn required_enum_alias_key_facts()
    ensures
        "name"@ != "comment"@,
        "name"@ != "extends"@,
        "name"@ != "alias"@,
        "name"@ != "api"@,
        "name"@ != "deprecated"@,
        "comment"@ != "extends"@,
        "comment"@ != "alias"@,
        "comment"@ != "api"@,
        "comment"@ != "deprecated"@,
        "extends"@ != "alias"@,
        "extends"@ != "api"@,
        "extends"@ != "deprecated"@,
        "alias"@ != "api"@,
        "alias"@ != "deprecated"@,
        "api"@ != "deprecated"@,
{
    reveal_strlit("alias");
    reveal_strlit("api");
    reveal_strlit("comment");
    reveal_strlit("deprecated");
    reveal_strlit("extends");
    reveal_strlit("name");
    assert("alias"@.len() == 5);
    assert("alias"@[0] == 'a');
    assert("alias"@[1] == 'l');
    assert("alias"@[2] == 'i');
    assert("alias"@[3] == 'a');
    assert("alias"@[4] == 's');
    assert("api"@.len() == 3);
    assert("api"@[0] == 'a');
    assert("api"@[1] == 'p');
    assert("api"@[2] == 'i');
    assert("comment"@.len() == 7);
    assert("comment"@[0] == 'c');
    assert("comment"@[1] == 'o');
    assert("comment"@[2] == 'm');
    assert("comment"@[3] == 'm');
    assert("comment"@[4] == 'e');
    assert("comment"@[5] == 'n');
    assert("comment"@[6] == 't');
    assert("deprecated"@.len() == 10);
    assert("deprecated"@[0] == 'd');
    assert("deprecated"@[1] == 'e');
    assert("deprecated"@[2] == 'p');
    assert("deprecated"@[3] == 'r');
    assert("deprecated"@[4] == 'e');
    assert("deprecated"@[5] == 'c');
    assert("deprecated"@[6] == 'a');
    assert("deprecated"@[7] == 't');
    assert("deprecated"@[8] == 'e');
    assert("deprecated"@[9] == 'd');
    assert("extends"@.len() == 7);
    assert("extends"@[0] == 'e');
    assert("extends"@[1] == 'x');
    assert("extends"@[2] == 't');
    assert("extends"@[3] == 'e');
    assert("extends"@[4] == 'n');
    assert("extends"@[5] == 'd');
    assert("extends"@[6] == 's');
    assert("name"@.len() == 4);
    assert("name"@[0] == 'n');
    assert("name"@[1] == 'a');
    assert("name"@[2] == 'm');
    assert("name"@[3] == 'e');
}

/// The record built from decoded pairs: every key must be mapped, and
/// the mandatory fields must be set.
pub open spec fn required_enum_alias_from_pairs(ps: Seq<AttrV>) -> Result<RequiredEnumAliasV, ErrV> {
    match first_err_by(ps, required_enum_alias_checker()) {
        Some(e) => Err(e),
        None => if or_empty(last_val(ps, "name"@)).len() == 0 {
            Err(missing_err("name"@, "RequiredEnumAlias"@))
        } else {
            Ok(
                RequiredEnumAliasV {
                    name: or_empty(last_val(ps, "name"@)),
                    comment: last_val(ps, "comment"@),
                    extends: last_val(ps, "extends"@),
                    alias_of: or_empty(last_val(ps, "alias"@)),
                    api: last_val(ps, "api"@),
                    deprecated: last_val(ps, "deprecated"@),
                },
            )
        },
    }
}

impl RequiredEnumAlias {
    /// Builds a `RequiredEnumAlias` from decoded attribute pairs.
    #[verifier::loop_isolation(false)]
    pub fn from_pairs(pairs: &Vec<Attr>) -> (r: Result<RequiredEnumAlias, ParseError>)
        ensures
            res_view(r) == required_enum_alias_from_pairs(attrs_view(pairs@)),
    {
        let ghost aps = attrs_view(pairs@);
        let ghost f = required_enum_alias_checker();
        let mut name: Option<String> = None;
        let mut comment: Option<String> = None;
        let mut extends: Option<String> = None;
        let mut alias_of: String = String::new();
        let mut api: Option<String> = None;
        let mut deprecated: Option<String> = None;
        let mut idx: usize = 0;
        proof {
            assert(aps.skip(0) =~= aps);
            assert(aps.take(0) =~= Seq::<AttrV>::empty());
        }
        while idx < pairs.len()
            invariant
                idx <= pairs@.len(),
                first_err_by(aps, f) == first_err_by(aps.skip(idx as int), f),
                opt_view(name) == last_val(aps.take(idx as int), "name"@),
                opt_view(comment) == last_val(aps.take(idx as int), "comment"@),
                opt_view(extends) == last_val(aps.take(idx as int), "extends"@),
                alias_of@ == or_empty(last_val(aps.take(idx as int), "alias"@)),
                opt_view(api) == last_val(aps.take(idx as int), "api"@),
                opt_view(deprecated) == last_val(aps.take(idx as int), "deprecated"@),
            decreases pairs@.len() - idx,
        {
            let ghost p = aps[idx as int];
            proof {
                required_enum_alias_key_facts();
                assert(p == pairs@[idx as int]@);
                assert(aps.skip(idx as int)[0] == p);
                assert(aps.skip(idx as int).drop_first() =~= aps.skip(idx as int + 1));
                assert(aps.take(idx as int + 1).drop_last() =~= aps.take(idx as int));
                assert(aps.take(idx as int + 1).last() == p);
            }
            let a = &pairs[idx];
            if str_eq(a.key.as_str(), "name") {
                name = Some(a.value.clone());
            } else if str_eq(a.key.as_str(), "comment") {
                comment = Some(a.value.clone());
            } else if str_eq(a.key.as_str(), "extends") {
                extends = Some(a.value.clone());
            } else if str_eq(a.key.as_str(), "alias") {
                alias_of = a.value.clone();
            } else if str_eq(a.key.as_str(), "api") {
                api = Some(a.value.clone());
            } else if str_eq(a.key.as_str(), "deprecated") {
                deprecated = Some(a.value.clone());
            } else {
                return Err(ParseError::UnexpectedAttribute {
                    key: a.key.clone(),
                    record_kind: "RequiredEnumAlias".to_owned(),
                });
            }
            idx += 1;
        }
        proof {
            assert(aps.skip(pairs@.len() as int) =~= Seq::<AttrV>::empty());
            assert(aps.take(pairs@.len() as int) =~= aps);
        }
        let name = match name {
            Some(v) => v,
            None => {
                return Err(ParseError::MissingRequiredAttribute {
                    name: "name".to_owned(),
                    record_kind: "RequiredEnumAlias".to_owned(),
                });
            },
        };
        if name.as_str().is_empty() {
            return Err(ParseError::MissingRequiredAttribute {
                name: "name".to_owned(),
                record_kind: "RequiredEnumAlias".to_owned(),
            });
        }
        Ok(RequiredEnumAlias {
            name,
            comment,
            extends,
            alias_of,
            api,
            deprecated,
        })
    }

    /// Builds a `RequiredEnumAlias` from a tag's raw attribute text.
    pub fn from_attrs(attrs: &str) -> (r: Result<RequiredEnumAlias, ParseError>)
        ensures
            res_view(r) == required_enum_alias_from_pairs(attrs_of(attrs@)),
    {
        let pairs = decode_attrs(attrs);
        RequiredEnumAlias::from_pairs(&pairs)
    }
}

/// Permuting the tag's attribute pairs never changes the
/// record built, as long as the pair list is valid: keys all distinct and
/// the record accepted.
pub proof fn lemma_required_enum_alias_attr_order(ps1: Seq<AttrV>, ps2: Seq<AttrV>)
    requires
        keys_distinct(ps1),
        ps1.to_multiset() == ps2.to_multiset(),
        required_enum_alias_from_pairs(ps1) is Ok,
    ensures
        required_enum_alias_from_pairs(ps2) == required_enum_alias_from_pairs(ps1),
{
    lemma_first_err_by_permutation_none(ps1, ps2, required_enum_alias_checker());
    lemma_last_val_permutation(ps1, ps2, "name"@);
    lemma_last_val_permutation(ps1, ps2, "comment"@);
    lemma_last_val_permutation(ps1, ps2, "extends"@);
    lemma_last_val_permutation(ps1, ps2, "alias"@);
    lemma_last_val_permutation(ps1, ps2, "api"@);
    lemma_last_val_permutation(ps1, ps2, "deprecated"@);
}

/// A required enum entry carrying an explicit value.
#[derive(Debug, Clone, PartialEq, Eq)]
pub struct RequiredEnumValue {
    pub name: String,
    pub comment: Option<String>,
    pub extends: String,
    pub value: String,
    pub api: Option<String>,
}

/// The mathematical value of a [`RequiredEnumValue`].
pub ghost struct RequiredEnumValueV {
    pub name: Seq<char>,
    pub comment: Option<Seq<char>>,
    pub extends: Seq<char>,
    pub value: Seq<char>,
    pub api: Option<Seq<char>>,
}

impl View for RequiredEnumValue {
    type V = RequiredEnumValueV;

    open spec fn view(&self) -> RequiredEnumValueV {
        RequiredEnumValueV {
            name: self.name@,
            comment: opt_view(self.comment),
            extends: self.extends@,
            value: self.value@,
            api: opt_view(self.api),
        }
    }
}

pub open spec fn required_enum_value_pair_err(p: AttrV) -> Option<ErrV> {
    if p.key == "name"@ {
        None
    } else if p.key == "comment"@ {
        None
    } else if p.key == "extends"@ {
        None
    } else if p.key == "value"@ {
        None
    } else if p.key == "api"@ {
        None
    } else {
        Some(ErrV::UnexpectedAttribute { key: p.key, record_kind: "RequiredEnumValue"@ })
    }
}

pub open spec fn required_enum_value_checker() -> spec_fn(AttrV) -> Option<ErrV> {
    |p: AttrV| required_enum_value_pair_err(p)
}

/// The attribute keys (and checked attribute values) of this record kind
/// are pairwise distinct text.
proof fn required_enum_value_key_facts()
    ensures
        "name"@ != "comment"@,
        "name"@ != "extends"@,
        "name"@ != "value"@,
        "name"@ != "api"@,
        "comment"@ != "extends"@,
        "comment"@ != "value"@,
        "comment"@ != "api"@,
        "extends"@ != "value"@,
        "extends"@ != "api"@,
        "value"@ != "api"@,
{
    reveal_strlit("api");
    reveal_strlit("comment");
    reveal_strlit("extends");
    reveal_strlit("name");
    reveal_strlit("value");
    assert("api"@.len() == 3);
    assert("api"@[0] == 'a');
    assert("api"@[1] == 'p');
    assert("api"@[2] == 'i');
    assert("comment"@.len() == 7);
    assert("comment"@[0] == 'c');
    assert("comment"@[1] == 'o');
    assert("comment"@[2] == 'm');
    assert("comment"@[3] == 'm');
    assert("comment"@[4] == 'e');
    assert("comment"@[5] == 'n');
    assert("comment"@[6] == 't');
    assert("extends"@.len() == 7);
    assert("extends"@[0] == 'e');
    assert("extends"@[1] == 'x');
    assert("extends"@[2] == 't');
    assert("extends"@[3] == 'e');
    assert("extends"@[4] == 'n');
    assert("extends"@[5] == 'd');
    assert("extends"@[6] == 's');
    assert("name"@.len() == 4);
    assert("name"@[0] == 'n');
    assert("name"@[1] == 'a');
    assert("name"@[2] == 'm');
    assert("name"@[3] == 'e');
    assert("value"@.len() == 5);
    assert("value"@[0] == 'v');
    assert("value"@[1] == 'a');
    assert("value"@[2] == 'l');
    assert("value"@[3] == 'u');
    assert("value"@[4] == 'e');
}

/// The record built from decoded pairs: every key must be mapped, and
/// the mandatory fields must be set.
pub open spec fn required_enum_value_from_pairs(ps: Seq<AttrV>) -> Result<RequiredEnumValueV, ErrV> {
    match first_err_by(ps, required_enum_value_checker()) {
        Some(e) => Err(e),
        None => if or_empty(last_val(ps, "name"@)).len() == 0 {
            Err(missing_err("name"@, "RequiredEnumValue"@))
        } else {
            Ok(
                RequiredEnumValueV {
                    name: or_empty(last_val(ps, "name"@)),
                    comment: last_val(ps, "comment"@),
                    extends: or_empty(last_val(ps, "extends"@)),
                    value: or_empty(last_val(ps, "value"@)),
                    api: last_val(ps, "api"@),
                },
            )
        },
    }
}

impl RequiredEnumValue {
    /// Builds a `RequiredEnumValue` from decoded attribute pairs.
    #[verifier::loop_isolation(false)]
    pub fn from_pairs(pairs: &Vec<Attr>) -> (r: Result<RequiredEnumValue, ParseError>)
        ensures
            res_view(r) == required_enum_value_from_pairs(attrs_view(pairs@)),
    {
        let ghost aps = attrs_view(pairs@);
        let ghost f = required_enum_value_checker();
        let mut name: Option<String> = None;
        let mut comment: Option<String> = None;
        let mut extends: String = String::new();
        let mut value: String = String::new();
        let mut api: Option<String> = None;
        let mut idx: usize = 0;
        proof {
            assert(aps.skip(0) =~= aps);
            assert(aps.take(0) =~= Seq::<AttrV>::empty());
        }
        while idx < pairs.len()
            invariant
                idx <= pairs@.len(),
                first_err_by(aps, f) == first_err_by(aps.skip(idx as int), f),
                opt_view(name) == last_val(aps.take(idx as int), "name"@),
                opt_view(comment) == last_val(aps.take(idx as int), "comment"@),
                extends@ == or_empty(last_val(aps.take(idx as int), "extends"@)),
                value@ == or_empty(last_val(aps.take(idx as int), "value"@)),
                opt_view(api) == last_val(aps.take(idx as int), "api"@),
            decreases pairs@.len() - idx,
        {
            let ghost p = aps[idx as int];
            proof {
                required_enum_value_key_facts();
                assert(p == pairs@[idx as int]@);
                assert(aps.skip(idx as int)[0] == p);
                assert(aps.skip(idx as int).drop_first() =~= aps.skip(idx as int + 1));
                assert(aps.take(idx as int + 1).drop_last() =~= aps.take(idx as int));
                assert(aps.take(idx as int + 1).last() == p);
            }
            let a = &pairs[idx];
            if str_eq(a.key.as_str(), "name") {
                name = Some(a.value.clone());
            } else if str_eq(a.key.as_str(), "comment") {
                comment = Some(a.value.clone());
            } else if str_eq(a.key.as_str(), "extends") {
                extends = a.value.clone();
            } else if str_eq(a.key.as_str(), "value") {
                value = a.value.clone();
            } else if str_eq(a.key.as_str(), "api") {
                api = Some(a.value.clone());
            } else {
                return Err(ParseError::UnexpectedAttribute {
                    key: a.key.clone(),
                    record_kind: "RequiredEnumValue".to_owned(),
                });
            }
            idx += 1;
        }
        proof {
            assert(aps.skip(pairs@.len() as int) =~= Seq::<AttrV>::empty());
            assert(aps.take(pairs@.len() as int) =~= aps);
        }
        let name = match name {
            Some(v) => v,
            None => {
                return Err(ParseError::MissingRequiredAttribute {
                    name: "name".to_owned(),
                    record_kind: "RequiredEnumValue".to_owned(),
                });
            },
        };
        if name.as_str().is_empty() {
            return Err(ParseError::MissingRequiredAttribute {
                name: "name".to_owned(),
                record_kind: "RequiredEnumValue".to_owned(),
            });
        }
        Ok(RequiredEnumValue {
            name,
            comment,
            extends,
            value,
            api,
        })
    }

    /// Builds a `RequiredEnumValue` from a tag's raw attribute text.
    pub fn from_attrs(attrs: &str) -> (r: Result<RequiredEnumValue, ParseError>)
        ensures
            res_view(r) == required_enum_value_from_pairs(attrs_of(attrs@)),
    {
        let pairs = decode_attrs(attrs);
        RequiredEnumValue::from_pairs(&pairs)
    }
}

/// Permuting the tag's attribute pairs never changes the
/// record built, as long as the pair list is valid: keys all distinct and
/// the record accepted.
pub proof fn lemma_required_enum_value_attr_order(ps1: Seq<AttrV>, ps2: Seq<AttrV>)
    requires
        keys_distinct(ps1),
        ps1.to_multiset() == ps2.to_multiset(),
        required_enum_value_from_pairs(ps1) is Ok,
    ensures
        required_enum_value_from_pairs(ps2) == required_enum_value_from_pairs(ps1),
{
    lemma_first_err_by_permutation_none(ps1, ps2, required_enum_value_checker());
    lemma_last_val_permutation(ps1, ps2, "name"@);
    lemma_last_val_permutation(ps1, ps2, "comment"@);
    lemma_last_val_permutation(ps1, ps2, "extends"@);
    lemma_last_val_permutation(ps1, ps2, "value"@);
    lemma_last_val_permutation(ps1, ps2, "api"@);
}

/// A required command, referenced by name.
#[derive(Debug, Clone, PartialEq, Eq)]
pub struct RequiredCommand {
    pub name: String,
    pub comment: Option<String>,
}

/// The mathematical value of a [`RequiredCommand`].
pub ghost struct RequiredCommandV {
    pub name: Seq<char>,
    pub comment: Option<Seq<char>>,
}

impl View for RequiredCommand {
    type V = RequiredCommandV;

    open spec fn view(&self) -> RequiredCommandV {
        RequiredCommandV {
            name: self.name@,
            comment: opt_view(self.comment),
        }
    }
}

pub open spec fn required_command_pair_err(p: AttrV) -> Option<ErrV> {
    if p.key == "name"@ {
        None
    } else if p.key == "comment"@ {
        None
    } else {
        Some(ErrV::UnexpectedAttribute { key: p.key, record_kind: "RequiredCommand"@ })
    }
}

pub open spec fn required_command_checker() -> spec_fn(AttrV) -> Option<ErrV> {
    |p: AttrV| required_command_pair_err(p)
}

/// The attribute keys (and checked attribute values) of this record kind
/// are pairwise distinct text.
proof fn required_command_key_facts()
    ensures
        "name"@ != "comment"@,
{
    reveal_strlit("comment");
    reveal_strlit("name");
    assert("comment"@.len() == 7);
    assert("comment"@[0] == 'c');
    assert("comment"@[1] == 'o');
    assert("comment"@[2] == 'm');
    assert("comment"@[3] == 'm');
    assert("comment"@[4] == 'e');
    assert("comment"@[5] == 'n');
    assert("comment"@[6] == 't');
    assert("name"@.len() == 4);
    assert("name"@[0] == 'n');
    assert("name"@[1] == 'a');
    assert("name"@[2] == 'm');
    assert("name"@[3] == 'e');
}

/// The record built from decoded pairs: every key must be mapped, and
/// the mandatory fields must be set.
pub open spec fn required_command_from_pairs(ps: Seq<AttrV>) -> Result<RequiredCommandV, ErrV> {
    match first_err_by(ps, required_command_checker()) {
        Some(e) => Err(e),
        None => if or_empty(last_val(ps, "name"@)).len() == 0 {
            Err(missing_err("name"@, "RequiredCommand"@))
        } else {
            Ok(
                RequiredCommandV {
                    name: or_empty(last_val(ps, "name"@)),
                    comment: last_val(ps, "comment"@),
                },
            )
        },
    }
}

impl RequiredCommand {
    /// Builds a `RequiredCommand` from decoded attribute pairs.
    #[verifier::loop_isolation(false)]
    pub fn from_pairs(pairs: &Vec<Attr>) -> (r: Result<RequiredCommand, ParseError>)
        ensures
            res_view(r) == required_command_from_pairs(attrs_view(pairs@)),
    {
        let ghost aps = attrs_view(pairs@);
        let ghost f = required_command_checker();
        let mut name: Option<String> = None;
        let mut comment: Option<String> = None;
        let mut idx: usize = 0;
        proof {
            assert(aps.skip(0) =~= aps);
            assert(aps.take(0) =~= Seq::<AttrV>::empty());
        }
        while idx < pairs.len()
            invariant
                idx <= pairs@.len(),
                first_err_by(aps, f) == first_err_by(aps.skip(idx as int), f),
                opt_view(name) == last_val(aps.take(idx as int), "name"@),
                opt_view(comment) == last_val(aps.take(idx as int), "comment"@),
            decreases pairs@.len() - idx,
        {
            let ghost p = aps[idx as int];
            proof {
                required_command_key_facts();
                assert(p == pairs@[idx as int]@);
                assert(aps.skip(idx as int)[0] == p);
                assert(aps.skip(idx as int).drop_first() =~= aps.skip(idx as int + 1));
                assert(aps.take(idx as int + 1).drop_last() =~= aps.take(idx as int));
                assert(aps.take(idx as int + 1).last() == p);
            }
            let a = &pairs[idx];
            if str_eq(a.key.as_str(), "name") {
                name = Some(a.value.clone());
            } else if str_eq(a.key.as_str(), "comment") {
                comment = Some(a.value.clone());
            } else {
                return Err(ParseError::UnexpectedAttribute {
                    key: a.key.clone(),
                    record_kind: "RequiredCommand".to_owned(),
                });
            }
            idx += 1;
        }
        proof {
            assert(aps.skip(pairs@.len() as int) =~= Seq::<AttrV>::empty());
            assert(aps.take(pairs@.len() as int) =~= aps);
        }
        let name = match name {
            Some(v) => v,
            None => {
                return Err(ParseError::MissingRequiredAttribute {
                    name: "name".to_owned(),
                    record_kind: "RequiredCommand".to_owned(),
                });
            },
        };
        if name.as_str().is_empty() {
            return Err(ParseError::MissingRequiredAttribute {
                name: "name".to_owned(),
                record_kind: "RequiredCommand".to_owned(),
            });
        }
        Ok(RequiredCommand {
            name,
            comment,
        })
    }

    /// Builds a `RequiredCommand` from a tag's raw attribute text.
    pub fn from_attrs(attrs: &str) -> (r: Result<RequiredCommand, ParseError>)
        ensures
            res_view(r) == required_command_from_pairs(attrs_of(attrs@)),
    {
        let pairs = decode_attrs(attrs);
        RequiredCommand::from_pairs(&pairs)
    }
}

/// Permuting the tag's attribute pairs never changes the
/// record built, as long as the pair list is valid: keys all distinct and
/// the record accepted.
pub proof fn lemma_required_command_attr_order(ps1: Seq<AttrV>, ps2: Seq<AttrV>)
    requires
        keys_distinct(ps1),
        ps1.to_multiset() == ps2.to_multiset(),
        required_command_from_pairs(ps1) is Ok,
    ensures
        required_command_from_pairs(ps2) == required_command_from_pairs(ps1),
{
    lemma_first_err_by_permutation_none(ps1, ps2, required_command_checker());
    lemma_last_val_permutation(ps1, ps2, "name"@);
    lemma_last_val_permutation(ps1, ps2, "comment"@);
}

/// The priority-ordered keys that classify an empty `<enum/>` tag inside a
/// `<require>` block: `offset`, then `bitpos`, then `alias`, then `value`;
/// with none of them present the entry is plain.
pub open spec fn require_enum_keys() -> Seq<Seq<char>> {
    seq!["offset"@, "bitpos"@, "alias"@, "value"@]
}

/// One empty `<enum/>` tag inside a `<require>` block, classified by the
/// fixed-priority presence scan and appended to the matching list of `req`.
pub open spec fn spec_require_enum(req: RequirementV, attrs: Seq<char>) -> Result<
    RequirementV,
    ErrV,
> {
    let aps = attrs_of(attrs);
    match spec_classify(aps, require_enum_keys()) {
        Some(c) => if c == 0 {
            match required_enum_offset_from_pairs(aps) {
                Ok(v) => Ok(
                    RequirementV { required_offset_enums: req.required_offset_enums.push(v), ..req },
                ),
                Err(e) => Err(e),
            }
        } else if c == 1 {
            match required_enum_bitpos_from_pairs(aps) {
                Ok(v) => Ok(
                    RequirementV { required_bitpos_enums: req.required_bitpos_enums.push(v), ..req },
                ),
                Err(e) => Err(e),
            }
        } else if c == 2 {
            match required_enum_alias_from_pairs(aps) {
                Ok(v) => Ok(
                    RequirementV { required_alias_enums: req.required_alias_enums.push(v), ..req },
                ),
                Err(e) => Err(e),
            }
        } else {
            match required_enum_value_from_pairs(aps) {
                Ok(v) => Ok(
                    RequirementV { required_value_enums: req.required_value_enums.push(v), ..req },
                ),
                Err(e) => Err(e),
            }
        },
        None => match required_enum_plain_from_pairs(aps) {
            Ok(v) => Ok(RequirementV { required_plain_enums: req.required_plain_enums.push(v), ..req }),
            Err(e) => Err(e),
        },
    }
}

/// Classifies one required `<enum/>` entry and appends it to the matching
/// list of the requirement being built.
pub fn do_require_enum(req: &mut Requirement, attrs: &str) -> (r: Result<(), ParseError>)
    ensures
        match r {
            Ok(()) => spec_require_enum(old(req)@, attrs@) == Ok::<RequirementV, ErrV>(
                final(req)@,
            ),
            Err(e) => spec_require_enum(old(req)@, attrs@) == Err::<RequirementV, ErrV>(e@),
        },
{
    let pairs = decode_attrs(attrs);
    let keys: Vec<&str> = vec!["offset", "bitpos", "alias", "value"];
    proof {
        assert(seq_view(keys@) =~= require_enum_keys());
    }
    match classify_by_presence(&pairs, &keys) {
        Some(c) => {
            if c == 0 {
                match RequiredEnumOffset::from_pairs(&pairs) {
                    Ok(v) => {
                        proof {
                            assert(seq_view(req.required_offset_enums@.push(v)) =~= seq_view(
                                req.required_offset_enums@,
                            ).push(v@));
                        }
                        req.required_offset_enums.push(v);
                        Ok(())
                    },
                    Err(e) => Err(e),
                }
            } else if c == 1 {
                match RequiredEnumBitpos::from_pairs(&pairs) {
                    Ok(v) => {
                        proof {
                            assert(seq_view(req.required_bitpos_enums@.push(v)) =~= seq_view(
                                req.required_bitpos_enums@,
                            ).push(v@));
                        }
                        req.required_bitpos_enums.push(v);
                        Ok(())
                    },
                    Err(e) => Err(e),
                }
            } else if c == 2 {
                match RequiredEnumAlias::from_pairs(&pairs) {
                    Ok(v) => {
                        proof {
                            assert(seq_view(req.required_alias_enums@.push(v)) =~= seq_view(
                                req.required_alias_enums@,
                            ).push(v@));
                        }
                        req.required_alias_enums.push(v);
                        Ok(())
                    },
                    Err(e) => Err(e),
                }
            } else {
                match RequiredEnumValue::from_pairs(&pairs) {
                    Ok(v) => {
                        proof {
                            assert(seq_view(req.required_value_enums@.push(v)) =~= seq_view(
                                req.required_value_enums@,
                            ).push(v@));
                        }
                        req.required_value_enums.push(v);
                        Ok(())
                    },
                    Err(e) => Err(e),
                }
            }
        },
        None => {
            match RequiredEnumPlain::from_pairs(&pairs) {
                Ok(v) => {
                    proof {
                        assert(seq_view(req.required_plain_enums@.push(v)) =~= seq_view(
                            req.required_plain_enums@,
                        ).push(v@));
                    }
                    req.required_plain_enums.push(v);
                    Ok(())
                },
                Err(e) => Err(e),
            }
        },
    }
}

/// The body of a `<require>` block: referenced types, classified enum
/// entries, commands, and inline comments, through the closing tag.
pub open spec fn parse_require_items(ev: Seq<EventV>, i: int, req: RequirementV) -> Result<
    (RequirementV, int),
    ErrV,
>
    decreases ev.len() - i,
{
    if i < 0 || i >= ev.len() {
        Err(end_err("require"@))
    } else {
        match ev[i] {
            EventV::End { name } => if name == "require"@ {
                Ok((req, i + 1))
            } else {
                Err(elem_err(name, "require"@))
            },
            EventV::Empty { name, attrs } => if name == "type"@ {
                match required_type_from_pairs(attrs_of(attrs)) {
                    Ok(v) => parse_require_items(
                        ev,
                        i + 1,
                        RequirementV { required_types: req.required_types.push(v), ..req },
                    ),
                    Err(e) => Err(e),
                }
            } else if name == "enum"@ {
                match spec_require_enum(req, attrs) {
                    Ok(req2) => parse_require_items(ev, i + 1, req2),
                    Err(e) => Err(e),
                }
            } else if name == "command"@ {
                match required_command_from_pairs(attrs_of(attrs)) {
                    Ok(v) => parse_require_items(
                        ev,
                        i + 1,
                        RequirementV { required_commands: req.required_commands.push(v), ..req },
                    ),
                    Err(e) => Err(e),
                }
            } else {
                Err(elem_err(name, "require"@))
            },
            EventV::Start { name, attrs } => if name == "comment"@ && attrs.len() == 0 {
                match spec_expect_text(ev, i + 1, "require"@) {
                    Ok(_) => match spec_expect_end(ev, i + 2, "comment"@, "require"@) {
                        Ok(j) => parse_require_items(ev, j, req),
                        Err(e) => Err(e),
                    },
                    Err(e) => Err(e),
                }
            } else {
                Err(elem_err(name, "require"@))
            },
            e => Err(elem_err(ev_tag(e), "require"@)),
        }
    }
}

/// A `<require>` block only ever moves the cursor forward.
pub proof fn lemma_parse_require_items_advances(ev: Seq<EventV>, i: int, req: RequirementV)
    ensures
        parse_require_items(ev, i, req) matches Ok(p) ==> i < p.1 <= ev.len(),
    decreases ev.len() - i,
{
    if 0 <= i < ev.len() {
        match ev[i] {
            EventV::Empty { name, attrs } => {
                if name == "type"@ {
                    match required_type_from_pairs(attrs_of(attrs)) {
                        Ok(v) => lemma_parse_require_items_advances(
                            ev,
                            i + 1,
                            RequirementV { required_types: req.required_types.push(v), ..req },
                        ),
                        Err(e) => {},
                    }
                } else if name == "enum"@ {
                    match spec_require_enum(req, attrs) {
                        Ok(req2) => lemma_parse_require_items_advances(ev, i + 1, req2),
                        Err(e) => {},
                    }
                } else if name == "command"@ {
                    match required_command_from_pairs(attrs_of(attrs)) {
                        Ok(v) => lemma_parse_require_items_advances(
                            ev,
                            i + 1,
                            RequirementV { required_commands: req.required_commands.push(v), ..req },
                        ),
                        Err(e) => {},
                    }
                }
            },
            EventV::Start { name, attrs } => {
                if name == "comment"@ && attrs.len() == 0 {
                    match spec_expect_text(ev, i + 1, "require"@) {
                        Ok(_) => match spec_expect_end(ev, i + 2, "comment"@, "require"@) {
                            Ok(j) => lemma_parse_require_items_advances(ev, j, req),
                            Err(e) => {},
                        },
                        Err(e) => {},
                    }
                }
            },
            _ => {},
        }
    }
}

/// Consumes the children of a `<require>` block into `req`, returning the
/// position just past the closing tag.
#[verifier::loop_isolation(false)]
pub fn do_require_items(req: &mut Requirement, events: &Vec<XmlEvent>, pos: usize) -> (r: Result<
    usize,
    ParseError,
>)
    ensures
        match r {
            Ok(j) => parse_require_items(events_view(events@), pos as int, old(req)@) == Ok::<
                _,
                ErrV,
            >((final(req)@, j as int)),
            Err(e) => parse_require_items(events_view(events@), pos as int, old(req)@) == Err::<
                (RequirementV, int),
                ErrV,
            >(e@),
        },
{
    let ghost ev = events_view(events@);
    let ghost r0 = old(req)@;
    let mut cur = pos;
    loop
        invariant
            pos <= cur,
            parse_require_items(ev, cur as int, req@) == parse_require_items(ev, pos as int, r0),
        decreases ev.len() - cur,
    {
        if cur >= events.len() {
            return Err(ParseError::UnexpectedElement {
                tag: String::new(),
                context: "require".to_owned(),
            });
        }
        proof {
            assert(ev[cur as int] == events@[cur as int]@);
        }
        match &events[cur] {
            XmlEvent::End { name: n } => {
                if str_eq(n.as_str(), "require") {
                    return Ok(cur + 1);
                } else {
                    return Err(ParseError::UnexpectedElement {
                        tag: n.clone(),
                        context: "require".to_owned(),
                    });
                }
            },
            XmlEvent::Empty { name: n, attrs: a } => {
                if str_eq(n.as_str(), "type") {
                    match RequiredType::from_attrs(a.as_str()) {
                        Ok(v) => {
                            proof {
                                assert(seq_view(req.required_types@.push(v)) =~= seq_view(
                                    req.required_types@,
                                ).push(v@));
                            }
                            req.required_types.push(v);
                        },
                        Err(e) => {
                            return Err(e);
                        },
                    }
                } else if str_eq(n.as_str(), "enum") {
                    match do_require_enum(req, a.as_str()) {
                        Ok(()) => {},
                        Err(e) => {
                            return Err(e);
                        },
                    }
                } else if str_eq(n.as_str(), "command") {
                    match RequiredCommand::from_attrs(a.as_str()) {
                        Ok(v) => {
                            proof {
                                assert(seq_view(req.required_commands@.push(v)) =~= seq_view(
                                    req.required_commands@,
                                ).push(v@));
                            }
                            req.required_commands.push(v);
                        },
                        Err(e) => {
                            return Err(e);
                        },
                    }
                } else {
                    return Err(ParseError::UnexpectedElement {
                        tag: n.clone(),
                        context: "require".to_owned(),
                    });
                }
            },
            XmlEvent::Start { name: n, attrs: a } => {
                if str_eq(n.as_str(), "comment") && a.as_str().is_empty() {
                    match expect_text(events, cur + 1, "require") {
                        Ok(_) => {},
                        Err(e) => {
                            return Err(e);
                        },
                    }
                    match expect_end(events, cur + 2, "comment", "require") {
                        Ok(j) => {
                            cur = j;
                            continue ;
                        },
                        Err(e) => {
                            return Err(e);
                        },
                    }
                } else {
                    return Err(ParseError::UnexpectedElement {
                        tag: n.clone(),
                        context: "require".to_owned(),
                    });
                }
            },
            e => {
                return Err(ParseError::UnexpectedElement {
                    tag: exec_ev_tag(e),
                    context: "require".to_owned(),
                });
            },
        }
        cur += 1;
    }
}

/// One empty tag inside a `<remove>` block: it must carry exactly a `name`
/// attribute, whose value is the removed name.
pub open spec fn spec_removed_name(attrs: Seq<char>) -> Result<Seq<char>, ErrV> {
    let aps = attrs_of(attrs);
    if aps.len() == 0 {
        Err(missing_err("name"@, "remove"@))
    } else if aps[0].key != "name"@ {
        Err(ErrV::UnexpectedAttribute { key: aps[0].key, record_kind: "remove"@ })
    } else if aps.len() != 1 {
        Err(ErrV::UnexpectedAttribute { key: aps[1].key, record_kind: "remove"@ })
    } else {
        Ok(aps[0].value)
    }
}

/// Reads the lone `name` attribute of a `<remove>` child tag.
pub fn removed_name(attrs: &str) -> (r: Result<String, ParseError>)
    ensures
        match r {
            Ok(n) => spec_removed_name(attrs@) == Ok::<Seq<char>, ErrV>(n@),
            Err(e) => spec_removed_name(attrs@) == Err::<Seq<char>, ErrV>(e@),
        },
{
    let pairs = decode_attrs(attrs);
    proof {
        if pairs@.len() > 0 {
            assert(attrs_view(pairs@)[0] == pairs@[0 as int]@);
        }
        if pairs@.len() > 1 {
            assert(attrs_view(pairs@)[1] == pairs@[1 as int]@);
        }
    }
    if pairs.len() == 0 {
        return Err(ParseError::MissingRequiredAttribute {
            name: "name".to_owned(),
            record_kind: "remove".to_owned(),
        });
    }
    if !str_eq(pairs[0].key.as_str(), "name") {
        return Err(ParseError::UnexpectedAttribute {
            key: pairs[0].key.clone(),
            record_kind: "remove".to_owned(),
        });
    }
    if pairs.len() != 1 {
        return Err(ParseError::UnexpectedAttribute {
            key: pairs[1].key.clone(),
            record_kind: "remove".to_owned(),
        });
    }
    Ok(pairs[0].value.clone())
}

/// The body of a `<remove>` block: `<enum/>`, `<type/>` and `<command/>`
/// names appended to the feature's removed lists, through the closing tag.
pub open spec fn parse_remove_items(ev: Seq<EventV>, i: int, f: FeatureV) -> Result<
    (FeatureV, int),
    ErrV,
>
    decreases ev.len() - i,
{
    if i < 0 || i >= ev.len() {
        Err(end_err("remove"@))
    } else {
        match ev[i] {
            EventV::End { name } => if name == "remove"@ {
                Ok((f, i + 1))
            } else {
                Err(elem_err(name, "remove"@))
            },
            EventV::Empty { name, attrs } => if name == "enum"@ {
                match spec_removed_name(attrs) {
                    Ok(n) => parse_remove_items(
                        ev,
                        i + 1,
                        FeatureV { removed_enums: f.removed_enums.push(n), ..f },
                    ),
                    Err(e) => Err(e),
                }
            } else if name == "type"@ {
                match spec_removed_name(attrs) {
                    Ok(n) => parse_remove_items(
                        ev,
                        i + 1,
                        FeatureV { removed_types: f.removed_types.push(n), ..f },
                    ),
                    Err(e) => Err(e),
                }
            } else if name == "command"@ {
                match spec_removed_name(attrs) {
                    Ok(n) => parse_remove_items(
                        ev,
                        i + 1,
                        FeatureV { removed_commands: f.removed_commands.push(n), ..f },
                    ),
                    Err(e) => Err(e),
                }
            } else {
                Err(elem_err(name, "remove"@))
            },
            e => Err(elem_err(ev_tag(e), "remove"@)),
        }
    }
}

/// A `<remove>` block only ever moves the cursor forward.
pub proof fn lemma_parse_remove_items_advances(ev: Seq<EventV>, i: int, f: FeatureV)
    ensures
        parse_remove_items(ev, i, f) matches Ok(p) ==> i < p.1 <= ev.len(),
    decreases ev.len() - i,
{
    if 0 <= i < ev.len() {
        match ev[i] {
            EventV::Empty { name, attrs } => {
                match spec_removed_name(attrs) {
                    Ok(n) => {
                        lemma_parse_remove_items_advances(
                            ev,
                            i + 1,
                            FeatureV { removed_enums: f.removed_enums.push(n), ..f },
                        );
                        lemma_parse_remove_items_advances(
                            ev,
                            i + 1,
                            FeatureV { removed_types: f.removed_types.push(n), ..f },
                        );
                        lemma_parse_remove_items_advances(
                            ev,
                            i + 1,
                            FeatureV { removed_commands: f.removed_commands.push(n), ..f },
                        );
                    },
                    Err(e) => {},
                }
            },
            _ => {},
        }
    }
}

/// Consumes the children of a `<remove>` block into the feature's removed
/// lists, returning the position just past the closing tag.
#[verifier::loop_isolation(false)]
fn do_remove_items(feature: &mut Feature, events: &Vec<XmlEvent>, pos: usize) -> (r: Result<
    usize,
    ParseError,
>)
    ensures
        match r {
            Ok(j) => parse_remove_items(events_view(events@), pos as int, old(feature)@) == Ok::<
                _,
                ErrV,
            >((final(feature)@, j as int)),
            Err(e) => parse_remove_items(events_view(events@), pos as int, old(feature)@) == Err::<
                (FeatureV, int),
                ErrV,
            >(e@),
        },
{
    let ghost ev = events_view(events@);
    let ghost f0 = old(feature)@;
    let mut cur = pos;
    loop
        invariant
            pos <= cur,
            parse_remove_items(ev, cur as int, feature@) == parse_remove_items(ev, pos as int, f0),
        decreases ev.len() - cur,
    {
        if cur >= events.len() {
            return Err(ParseError::UnexpectedElement {
                tag: String::new(),
                context: "remove".to_owned(),
            });
        }
        proof {
            assert(ev[cur as int] == events@[cur as int]@);
        }
        match &events[cur] {
            XmlEvent::End { name: n } => {
                if str_eq(n.as_str(), "remove") {
                    return Ok(cur + 1);
                } else {
                    return Err(ParseError::UnexpectedElement {
                        tag: n.clone(),
                        context: "remove".to_owned(),
                    });
                }
            },
            XmlEvent::Empty { name: n, attrs: a } => {
                if str_eq(n.as_str(), "enum") {
                    match removed_name(a.as_str()) {
                        Ok(v) => {
                            proof {
                                assert(seq_view(feature.removed_enums@.push(v)) =~= seq_view(
                                    feature.removed_enums@,
                                ).push(v@));
                            }
                            feature.removed_enums.push(v);
                        },
                        Err(e) => {
                            return Err(e);
                        },
                    }
                } else if str_eq(n.as_str(), "type") {
                    match removed_name(a.as_str()) {
                        Ok(v) => {
                            proof {
                                assert(seq_view(feature.removed_types@.push(v)) =~= seq_view(
                                    feature.removed_types@,
                                ).push(v@));
                            }
                            feature.removed_types.push(v);
                        },
                        Err(e) => {
                            return Err(e);
                        },
                    }
                } else if str_eq(n.as_str(), "command") {
                    match removed_name(a.as_str()) {
                        Ok(v) => {
                            proof {
                                assert(seq_view(feature.removed_commands@.push(v)) =~= seq_view(
                                    feature.removed_commands@,
                                ).push(v@));
                            }
                            feature.removed_commands.push(v);
                        },
                        Err(e) => {
                            return Err(e);
                        },
                    }
                } else {
                    return Err(ParseError::UnexpectedElement {
                        tag: n.clone(),
                        context: "remove".to_owned(),
                    });
                }
            },
            e => {
                return Err(ParseError::UnexpectedElement {
                    tag: exec_ev_tag(e),
                    context: "remove".to_owned(),
                });
            },
        }
        cur += 1;
    }
}

/// The body of a `<feature>` section: `<require>` blocks (started or
/// empty) and `<remove>` blocks, through the closing tag.
pub open spec fn parse_feature_body(ev: Seq<EventV>, i: int, f: FeatureV) -> Result<
    (FeatureV, int),
    ErrV,
>
    decreases ev.len() - i,
    via parse_feature_body_dec
{
    if i < 0 || i >= ev.len() {
        Err(end_err("feature"@))
    } else {
        match ev[i] {
            EventV::End { name } => if name == "feature"@ {
                Ok((f, i + 1))
            } else {
                Err(elem_err(name, "feature"@))
            },
            EventV::Start { name, attrs } => if name == "require"@ {
                match requirement_from_pairs(attrs_of(attrs)) {
                    Ok(req) => match parse_require_items(ev, i + 1, req) {
                        Ok((req2, j)) => parse_feature_body(
                            ev,
                            j,
                            FeatureV { requirements: f.requirements.push(req2), ..f },
                        ),
                        Err(e) => Err(e),
                    },
                    Err(e) => Err(e),
                }
            } else if name == "remove"@ {
                match first_err_by(attrs_of(attrs), comment_only_checker("remove"@)) {
                    Some(e) => Err(e),
                    None => match parse_remove_items(ev, i + 1, f) {
                        Ok((f2, j)) => parse_feature_body(ev, j, f2),
                        Err(e) => Err(e),
                    },
                }
            } else {
                Err(elem_err(name, "feature"@))
            },
            EventV::Empty { name, attrs } => if name == "require"@ {
                match requirement_from_pairs(attrs_of(attrs)) {
                    Ok(req) => parse_feature_body(
                        ev,
                        i + 1,
                        FeatureV { requirements: f.requirements.push(req), ..f },
                    ),
                    Err(e) => Err(e),
                }
            } else {
                Err(elem_err(name, "feature"@))
            },
            e => Err(elem_err(ev_tag(e), "feature"@)),
        }
    }
}

#[via_fn]
proof fn parse_feature_body_dec(ev: Seq<EventV>, i: int, f: FeatureV) {
    if 0 <= i < ev.len() {
        match ev[i] {
            EventV::Start { name, attrs } => {
                if name == "require"@ {
                    match requirement_from_pairs(attrs_of(attrs)) {
                        Ok(req) => lemma_parse_require_items_advances(ev, i + 1, req),
                        Err(e) => {},
                    }
                } else if name == "remove"@ {
                    lemma_parse_remove_items_advances(ev, i + 1, f);
                }
            },
            _ => {},
        }
    }
}

/// A `<feature>` section whose opening tag carries `attrs`: the feature
/// record is built from the attributes, filled by its blocks, and appended.
pub open spec fn spec_do_feature(
    ev: Seq<EventV>,
    i: int,
    attrs: Seq<char>,
    fs: Seq<FeatureV>,
) -> Result<(Seq<FeatureV>, int), ErrV> {
    match feature_from_pairs(attrs_of(attrs)) {
        Ok(f) => match parse_feature_body(ev, i, f) {
            Ok((f2, j)) => Ok((fs.push(f2), j)),
            Err(e) => Err(e),
        },
        Err(e) => Err(e),
    }
}

/// Consumes a `<feature>` section and appends the completed feature.
#[verifier::loop_isolation(false)]
pub fn do_feature(
    features: &mut Vec<Feature>,
    attrs: &str,
    events: &Vec<XmlEvent>,
    pos: usize,
) -> (r: Result<usize, ParseError>)
    ensures
        match r {
            Ok(j) => spec_do_feature(
                events_view(events@),
                pos as int,
                attrs@,
                seq_view(old(features)@),
            ) == Ok::<_, ErrV>((seq_view(final(features)@), j as int)),
            Err(e) => spec_do_feature(
                events_view(events@),
                pos as int,
                attrs@,
                seq_view(old(features)@),
            ) == Err::<(Seq<FeatureV>, int), ErrV>(e@),
        },
{
    let ghost ev = events_view(events@);
    let mut feature = match Feature::from_attrs(attrs) {
        Ok(f) => f,
        Err(e) => {
            return Err(e);
        },
    };
    let ghost f0 = feature@;
    let mut cur = pos;
    loop
        invariant
            pos <= cur,
            parse_feature_body(ev, cur as int, feature@) == parse_feature_body(ev, pos as int, f0),
            features@ == old(features)@,
        decreases ev.len() - cur,
    {
        if cur >= events.len() {
            return Err(ParseError::UnexpectedElement {
                tag: String::new(),
                context: "feature".to_owned(),
            });
        }
        proof {
            assert(ev[cur as int] == events@[cur as int]@);
        }
        match &events[cur] {
            XmlEvent::End { name: n } => {
                if str_eq(n.as_str(), "feature") {
                    proof {
                        assert(seq_view(features@.push(feature)) =~= seq_view(features@).push(
                            feature@,
                        ));
                    }
                    let j = cur + 1;
                    features.push(feature);
                    return Ok(j);
                } else {
                    return Err(ParseError::UnexpectedElement {
                        tag: n.clone(),
                        context: "feature".to_owned(),
                    });
                }
            },
            XmlEvent::Start { name: n, attrs: a } => {
                if str_eq(n.as_str(), "require") {
                    let mut req = match Requirement::from_attrs(a.as_str()) {
                        Ok(rq) => rq,
                        Err(e) => {
                            return Err(e);
                        },
                    };
                    let ghost rq0 = req@;
                    match do_require_items(&mut req, events, cur + 1) {
                        Ok(j) => {
                            proof {
                                lemma_parse_require_items_advances(ev, cur as int + 1, rq0);
                                assert(seq_view(feature.requirements@.push(req)) =~= seq_view(
                                    feature.requirements@,
                                ).push(req@));
                            }
                            feature.requirements.push(req);
                            cur = j;
                            continue ;
                        },
                        Err(e) => {
                            return Err(e);
                        },
                    }
                } else if str_eq(n.as_str(), "remove") {
                    if let Some(e) = check_comment_only(a.as_str(), "remove") {
                        return Err(e);
                    }
                    let ghost fv0 = feature@;
                    match do_remove_items(&mut feature, events, cur + 1) {
                        Ok(j) => {
                            proof {
                                lemma_parse_remove_items_advances(ev, cur as int + 1, fv0);
                            }
                            cur = j;
                            continue ;
                        },
                        Err(e) => {
                            return Err(e);
                        },
                    }
                } else {
                    return Err(ParseError::UnexpectedElement {
                        tag: n.clone(),
                        context: "feature".to_owned(),
                    });
                }
            },
            XmlEvent::Empty { name: n, attrs: a } => {
                if str_eq(n.as_str(), "require") {
                    match Requirement::from_attrs(a.as_str()) {
                        Ok(req) => {
                            proof {
                                assert(seq_view(feature.requirements@.push(req)) =~= seq_view(
                                    feature.requirements@,
                                ).push(req@));
                            }
                            feature.requirements.push(req);
                        },
                        Err(e) => {
                            return Err(e);
                        },
                    }
                } else {
                    return Err(ParseError::UnexpectedElement {
                        tag: n.clone(),
                        context: "feature".to_owned(),
                    });
                }
            },
            e => {
                return Err(ParseError::UnexpectedElement {
                    tag: exec_ev_tag(e),
                    context: "feature".to_owned(),
                });
            },
        }
        cur += 1;
    }
}

/// A `<feature>` body only ever moves the cursor forward.
pub proof fn lemma_parse_feature_body_advances(ev: Seq<EventV>, i: int, f: FeatureV)
    ensures
        parse_feature_body(ev, i, f) matches Ok(p) ==> i < p.1 <= ev.len(),
    decreases ev.len() - i,
{
    if 0 <= i < ev.len() {
        match ev[i] {
            EventV::Start { name, attrs } => {
                if name == "require"@ {
                    match requirement_from_pairs(attrs_of(attrs)) {
                        Ok(req) => {
                            lemma_parse_require_items_advances(ev, i + 1, req);
                            match parse_require_items(ev, i + 1, req) {
                                Ok((req2, j)) => lemma_parse_feature_body_advances(
                                    ev,
                                    j,
                                    FeatureV { requirements: f.requirements.push(req2), ..f },
                                ),
                                Err(e) => {},
                            }
                        },
                        Err(e) => {},
                    }
                } else if name == "remove"@ {
                    lemma_parse_remove_items_advances(ev, i + 1, f);
                    match parse_remove_items(ev, i + 1, f) {
                        Ok((f2, j)) => lemma_parse_feature_body_advances(ev, j, f2),
                        Err(e) => {},
                    }
                }
            },
            EventV::Empty { name, attrs } => {
                if name == "require"@ {
                    match requirement_from_pairs(attrs_of(attrs)) {
                        Ok(req) => lemma_parse_feature_body_advances(
                            ev,
                            i + 1,
                            FeatureV { requirements: f.requirements.push(req), ..f },
                        ),
                        Err(e) => {},
                    }
                }
            },
            _ => {},
        }
    }
}

/// A `<feature>` element that closes at once carries no requirements
/// beyond those already built from its attributes.
pub proof fn lemma_feature_empty_body(ev: Seq<EventV>, i: int, f: FeatureV)
    requires
        0 <= i < ev.len(),
        ev[i] == (EventV::End { name: "feature"@ }),
    ensures
        parse_feature_body(ev, i, f) == Ok::<_, ErrV>((f, i + 1)),
{
}

} // verus!
