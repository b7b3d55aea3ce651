//! The `<enums>` sections: API constants and enumeration groups.

use vstd::prelude::*;

use crate::attrs::{
    attrs_of, attrs_view, decode_attrs, first_err_by, found, keys_distinct, last_val,
    lemma_first_err_by_permutation_none, lemma_last_val_permutation, or_empty, opt_view, seq_view,
    Attr, AttrV,
};
use crate::attrs::{classify_by_presence, find_attr_value, first_val, has_attr_key, spec_classify};
use crate::errors::{elem_err, end_err, malformed_err, missing_err, res_view, ErrV, ParseError};
use crate::events::{
    eat_to_end_of_comment, events_view, ev_tag, exec_ev_tag, lemma_skip_comment_advances,
    skip_comment, EventV, XmlEvent,
};
use crate::utils::str_eq;

verus! {

/// A named constant from the `"API Constants"` enums section.
#[derive(Debug, Clone, PartialEq, Eq)]
pub struct ApiConstant {
    pub name: String,
    pub value: String,
    pub ty: Option<String>,
    pub comment: Option<String>,
}

/// The mathematical value of a [`ApiConstant`].
pub ghost struct ApiConstantV {
    pub name: Seq<char>,
    pub value: Seq<char>,
    pub ty: Option<Seq<char>>,
    pub comment: Option<Seq<char>>,
}

impl View for ApiConstant {
    type V = ApiConstantV;

    open spec fn view(&self) -> ApiConstantV {
        ApiConstantV {
            name: self.name@,
            value: self.value@,
            ty: opt_view(self.ty),
            comment: opt_view(self.comment),
        }
    }
}

pub open spec fn api_constant_pair_err(p: AttrV) -> Option<ErrV> {
    if p.key == "name"@ {
        None
    } else if p.key == "value"@ {
        None
    } else if p.key == "type"@ {
        None
    } else if p.key == "comment"@ {
        None
    } else {
        Some(ErrV::UnexpectedAttribute { key: p.key, record_kind: "ApiConstant"@ })
    }
}

pub open spec fn api_constant_checker() -> spec_fn(AttrV) -> Option<ErrV> {
    |p: AttrV| api_constant_pair_err(p)
}

/// The attribute keys (and checked attribute values) of this record kind
/// are pairwise distinct text.
proof fn api_constant_key_facts()
    ensures
        "name"@ != "value"@,
        "name"@ != "type"@,
        "name"@ != "comment"@,
        "value"@ != "type"@,
        "value"@ != "comment"@,
        "type"@ != "comment"@,
{
    reveal_strlit("comment");
    reveal_strlit("name");
    reveal_strlit("type");
    reveal_strlit("value");
    assert("comment"@.len() == 7);
    assert("comment"@[0] == 'c');
    assert("comment"@[1] == 'o');
    assert("comment"@[2] == 'm');
    assert("comment"@[3] == 'm');
    assert("comment"@[4] == 'e');
    assert("comment"@[5] == 'n');
    assert("comment"@[6] == 't');
    assert("name"@.len() == 4);
    assert("name"@[0] == 'n');
    assert("name"@[1] == 'a');
    assert("name"@[2] == 'm');
    assert("name"@[3] == 'e');
    assert("type"@.len() == 4);
    assert("type"@[0] == 't');
    assert("type"@[1] == 'y');
    assert("type"@[2] == 'p');
    assert("type"@[3] == 'e');
    assert("value"@.len() == 5);
    assert("value"@[0] == 'v');
    assert("value"@[1] == 'a');
    assert("value"@[2] == 'l');
    assert("value"@[3] == 'u');
    assert("value"@[4] == 'e');
}

/// The record built from decoded pairs: every key must be mapped, and
/// the mandatory fields must be set.
pub open spec fn api_constant_from_pairs(ps: Seq<AttrV>) -> Result<ApiConstantV, ErrV> {
    match first_err_by(ps, api_constant_checker()) {
        Some(e) => Err(e),
        None => if or_empty(last_val(ps, "name"@)).len() == 0 {
            Err(missing_err("name"@, "ApiConstant"@))
        } else {
            Ok(
                ApiConstantV {
                    name: or_empty(last_val(ps, "name"@)),
                    value: or_empty(last_val(ps, "value"@)),
                    ty: last_val(ps, "type"@),
                    comment: last_val(ps, "comment"@),
                },
            )
        },
    }
}

impl ApiConstant {
    /// Builds an `ApiConstant` from decoded attribute pairs.
    #[verifier::loop_isolation(false)]
    pub fn from_pairs(pairs: &Vec<Attr>) -> (r: Result<ApiConstant, ParseError>)
        ensures
            res_view(r) == api_constant_from_pairs(attrs_view(pairs@)),
    {
        let ghost aps = attrs_view(pairs@);
        let ghost f = api_constant_checker();
        let mut name: Option<String> = None;
        let mut value: String = String::new();
        let mut ty: Option<String> = None;
        let mut comment: Option<String> = None;
        let mut idx: usize = 0;
        proof {
            assert(aps.skip(0) =~= aps);
            assert(aps.take(0) =~= Seq::<AttrV>::empty());
        }
        while idx < pairs.len()
            invariant
                idx <= pairs@.len(),
                first_err_by(aps, f) == first_err_by(aps.skip(idx as int), f),
                opt_view(name) == last_val(aps.take(idx as int), "name"@),
                value@ == or_empty(last_val(aps.take(idx as int), "value"@)),
                opt_view(ty) == last_val(aps.take(idx as int), "type"@),
                opt_view(comment) == last_val(aps.take(idx as int), "comment"@),
            decreases pairs@.len() - idx,
        {
            let ghost p = aps[idx as int];
            proof {
                api_constant_key_facts();
                assert(p == pairs@[idx as int]@);
                assert(aps.skip(idx as int)[0] == p);
                assert(aps.skip(idx as int).drop_first() =~= aps.skip(idx as int + 1));
                assert(aps.take(idx as int + 1).drop_last() =~= aps.take(idx as int));
                assert(aps.take(idx as int + 1).last() == p);
            }
            let a = &pairs[idx];
            if str_eq(a.key.as_str(), "name") {
                name = Some(a.value.clone());
            } else if str_eq(a.key.as_str(), "value") {
                value = a.value.clone();
            } else if str_eq(a.key.as_str(), "type") {
                ty = Some(a.value.clone());
            } else if str_eq(a.key.as_str(), "comment") {
                comment = Some(a.value.clone());
            } else {
                return Err(ParseError::UnexpectedAttribute {
                    key: a.key.clone(),
                    record_kind: "ApiConstant".to_owned(),
                });
            }
            idx += 1;
        }
        proof {
            assert(aps.skip(pairs@.len() as int) =~= Seq::<AttrV>::empty());
            assert(aps.take(pairs@.len() as int) =~= aps);
        }
        let name = match name {
            Some(v) => v,
            None => {
                return Err(ParseError::MissingRequiredAttribute {
                    name: "name".to_owned(),
                    record_kind: "ApiConstant".to_owned(),
                });
            },
        };
        if name.as_str().is_empty() {
            return Err(ParseError::MissingRequiredAttribute {
                name: "name".to_owned(),
                record_kind: "ApiConstant".to_owned(),
            });
        }
        Ok(ApiConstant {
            name,
            value,
            ty,
            comment,
        })
    }

    /// Builds an `ApiConstant` from a tag's raw attribute text.
    pub fn from_attrs(attrs: &str) -> (r: Result<ApiConstant, ParseError>)
        ensures
            res_view(r) == api_constant_from_pairs(attrs_of(attrs@)),
    {
        let pairs = decode_attrs(attrs);
        ApiConstant::from_pairs(&pairs)
    }
}

/// Permuting the tag's attribute pairs never changes the
/// record built, as long as the pair list is valid: keys all distinct and
/// the record accepted.
pub proof fn lemma_api_constant_attr_order(ps1: Seq<AttrV>, ps2: Seq<AttrV>)
    requires
        keys_distinct(ps1),
        ps1.to_multiset() == ps2.to_multiset(),
        api_constant_from_pairs(ps1) is Ok,
    ensures
        api_constant_from_pairs(ps2) == api_constant_from_pairs(ps1),
{
    lemma_first_err_by_permutation_none(ps1, ps2, api_constant_checker());
    lemma_last_val_permutation(ps1, ps2, "name"@);
    lemma_last_val_permutation(ps1, ps2, "value"@);
    lemma_last_val_permutation(ps1, ps2, "type"@);
    lemma_last_val_permutation(ps1, ps2, "comment"@);
}

/// A constant that stands for another constant by name.
#[derive(Debug, Clone, PartialEq, Eq)]
pub struct ApiConstantAlias {
    pub name: String,
    pub alias_of: String,
}

/// The mathematical value of a [`ApiConstantAlias`].
pub ghost struct ApiConstantAliasV {
    pub name: Seq<char>,
    pub alias_of: Seq<char>,
}

impl View for ApiConstantAlias {
    type V = ApiConstantAliasV;

    open spec fn view(&self) -> ApiConstantAliasV {
        ApiConstantAliasV {
            name: self.name@,
            alias_of: self.alias_of@,
        }
    }
}

pub open spec fn api_constant_alias_pair_err(p: AttrV) -> Option<ErrV> {
    if p.key == "name"@ {
        None
    } else if p.key == "alias"@ {
        None
    } else {
        Some(ErrV::UnexpectedAttribute { key: p.key, record_kind: "ApiConstantAlias"@ })
    }
}

pub open spec fn api_constant_alias_checker() -> spec_fn(AttrV) -> Option<ErrV> {
    |p: AttrV| api_constant_alias_pair_err(p)
}

/// The attribute keys (and checked attribute values) of this record kind
/// are pairwise distinct text.
proof fn api_constant_alias_key_facts()
    ensures
        "name"@ != "alias"@,
{
    reveal_strlit("alias");
    reveal_strlit("name");
    assert("alias"@.len() == 5);
    assert("alias"@[0] == 'a');
    assert("alias"@[1] == 'l');
    assert("alias"@[2] == 'i');
    assert("alias"@[3] == 'a');
    assert("alias"@[4] == 's');
    assert("name"@.len() == 4);
    assert("name"@[0] == 'n');
    assert("name"@[1] == 'a');
    assert("name"@[2] == 'm');
    assert("name"@[3] == 'e');
}

/// The record built from decoded pairs: every key must be mapped, and
/// the mandatory fields must be set.
pub open spec fn api_constant_alias_from_pairs(ps: Seq<AttrV>) -> Result<ApiConstantAliasV, ErrV> {
    match first_err_by(ps, api_constant_alias_checker()) {
        Some(e) => Err(e),
        None => if or_empty(last_val(ps, "name"@)).len() == 0 {
            Err(missing_err("name"@, "ApiConstantAlias"@))
        } else {
            Ok(
                ApiConstantAliasV {
                    name: or_empty(last_val(ps, "name"@)),
                    alias_of: or_empty(last_val(ps, "alias"@)),
                },
            )
        },
    }
}

impl ApiConstantAlias {
    /// Builds an `ApiConstantAlias` from decoded attribute pairs.
    #[verifier::loop_isolation(false)]
    pub fn from_pairs(pairs: &Vec<Attr>) -> (r: Result<ApiConstantAlias, ParseError>)
        ensures
            res_view(r) == api_constant_alias_from_pairs(attrs_view(pairs@)),
    {
        let ghost aps = attrs_view(pairs@);
        let ghost f = api_constant_alias_checker();
        let mut name: Option<String> = None;
        let mut alias_of: String = String::new();
        let mut idx: usize = 0;
        proof {
            assert(aps.skip(0) =~= aps);
            assert(aps.take(0) =~= Seq::<AttrV>::empty());
        }
        while idx < pairs.len()
            invariant
                idx <= pairs@.len(),
                first_err_by(aps, f) == first_err_by(aps.skip(idx as int), f),
                opt_view(name) == last_val(aps.take(idx as int), "name"@),
                alias_of@ == or_empty(last_val(aps.take(idx as int), "alias"@)),
            decreases pairs@.len() - idx,
        {
            let ghost p = aps[idx as int];
            proof {
                api_constant_alias_key_facts();
                assert(p == pairs@[idx as int]@);
                assert(aps.skip(idx as int)[0] == p);
                assert(aps.skip(idx as int).drop_first() =~= aps.skip(idx as int + 1));
                assert(aps.take(idx as int + 1).drop_last() =~= aps.take(idx as int));
                assert(aps.take(idx as int + 1).last() == p);
            }
            let a = &pairs[idx];
            if str_eq(a.key.as_str(), "name") {
                name = Some(a.value.clone());
            } else if str_eq(a.key.as_str(), "alias") {
                alias_of = a.value.clone();
            } else {
                return Err(ParseError::UnexpectedAttribute {
                    key: a.key.clone(),
                    record_kind: "ApiConstantAlias".to_owned(),
                });
            }
            idx += 1;
        }
        proof {
            assert(aps.skip(pairs@.len() as int) =~= Seq::<AttrV>::empty());
            assert(aps.take(pairs@.len() as int) =~= aps);
        }
        let name = match name {
            Some(v) => v,
            None => {
                return Err(ParseError::MissingRequiredAttribute {
                    name: "name".to_owned(),
                    record_kind: "ApiConstantAlias".to_owned(),
                });
            },
        };
        if name.as_str().is_empty() {
            return Err(ParseError::MissingRequiredAttribute {
                name: "name".to_owned(),
                record_kind: "ApiConstantAlias".to_owned(),
            });
        }
        Ok(ApiConstantAlias {
            name,
            alias_of,
        })
    }

    /// Builds an `ApiConstantAlias` from a tag's raw attribute text.
    pub fn from_attrs(attrs: &str) -> (r: Result<ApiConstantAlias, ParseError>)
        ensures
            res_view(r) == api_constant_alias_from_pairs(attrs_of(attrs@)),
    {
        let pairs = decode_attrs(attrs);
        ApiConstantAlias::from_pairs(&pairs)
    }
}

/// Permuting the tag's attribute pairs never changes the
/// record built, as long as the pair list is valid: keys all distinct and
/// the record accepted.
pub proof fn lemma_api_constant_alias_attr_order(ps1: Seq<AttrV>, ps2: Seq<AttrV>)
    requires
        keys_distinct(ps1),
        ps1.to_multiset() == ps2.to_multiset(),
        api_constant_alias_from_pairs(ps1) is Ok,
    ensures
        api_constant_alias_from_pairs(ps2) == api_constant_alias_from_pairs(ps1),
{
    lemma_first_err_by_permutation_none(ps1, ps2, api_constant_alias_checker());
    lemma_last_val_permutation(ps1, ps2, "name"@);
    lemma_last_val_permutation(ps1, ps2, "alias"@);
}

/// An `<enums>` tag and its inner data.
#[derive(Debug, Clone, PartialEq, Eq)]
pub struct EnumsGroup {
    pub name: String,
    pub comment: Option<String>,
    pub values: Vec<EnumValue>,
    pub aliases: Vec<EnumAlias>,
    pub bit_positions: Vec<EnumBitPosition>,
    pub ty: Option<String>,
    pub is_64_bit: bool,
}

/// The mathematical value of a [`EnumsGroup`].
pub ghost struct EnumsGroupV {
    pub name: Seq<char>,
    pub comment: Option<Seq<char>>,
    pub values: Seq<EnumValueV>,
    pub aliases: Seq<EnumAliasV>,
    pub bit_positions: Seq<EnumBitPositionV>,
    pub ty: Option<Seq<char>>,
    pub is_64_bit: bool,
}

impl View for EnumsGroup {
    type V = EnumsGroupV;

    open spec fn view(&self) -> EnumsGroupV {
        EnumsGroupV {
            name: self.name@,
            comment: opt_view(self.comment),
            values: seq_view(self.values@),
            aliases: seq_view(self.aliases@),
            bit_positions: seq_view(self.bit_positions@),
            ty: opt_view(self.ty),
            is_64_bit: self.is_64_bit,
        }
    }
}

pub open spec fn enums_group_pair_err(p: AttrV) -> Option<ErrV> {
    if p.key == "name"@ {
        None
    } else if p.key == "comment"@ {
        None
    } else if p.key == "type"@ {
        None
    } else if p.key == "bitwidth"@ {
        if p.value == "64"@ {
                None
            } else {
                Some(malformed_err("bitwidth"@, p.value))
            }
    } else {
        Some(ErrV::UnexpectedAttribute { key: p.key, record_kind: "EnumsGroup"@ })
    }
}

pub open spec fn enums_group_checker() -> spec_fn(AttrV) -> Option<ErrV> {
    |p: AttrV| enums_group_pair_err(p)
}

/// The attribute keys (and checked attribute values) of this record kind
/// are pairwise distinct text.
proof fn enums_group_key_facts()
    ensures
        "name"@ != "comment"@,
        "name"@ != "type"@,
        "name"@ != "bitwidth"@,
        "comment"@ != "type"@,
        "comment"@ != "bitwidth"@,
        "type"@ != "bitwidth"@,
{
    reveal_strlit("64");
    reveal_strlit("bitwidth");
    reveal_strlit("comment");
    reveal_strlit("name");
    reveal_strlit("type");
    assert("64"@.len() == 2);
    assert("64"@[0] == '6');
    assert("64"@[1] == '4');
    assert("bitwidth"@.len() == 8);
    assert("bitwidth"@[0] == 'b');
    assert("bitwidth"@[1] == 'i');
    assert("bitwidth"@[2] == 't');
    assert("bitwidth"@[3] == 'w');
    assert("bitwidth"@[4] == 'i');
    assert("bitwidth"@[5] == 'd');
    assert("bitwidth"@[6] == 't');
    assert("bitwidth"@[7] == 'h');
    assert("comment"@.len() == 7);
    assert("comment"@[0] == 'c');
    assert("comment"@[1] == 'o');
    assert("comment"@[2] == 'm');
    assert("comment"@[3] == 'm');
    assert("comment"@[4] == 'e');
    assert("comment"@[5] == 'n');
    assert("comment"@[6] == 't');
    assert("name"@.len() == 4);
    assert("name"@[0] == 'n');
    assert("name"@[1] == 'a');
    assert("name"@[2] == 'm');
    assert("name"@[3] == 'e');
    assert("type"@.len() == 4);
    assert("type"@[0] == 't');
    assert("type"@[1] == 'y');
    assert("type"@[2] == 'p');
    assert("type"@[3] == 'e');
}

/// The record built from decoded pairs: every key must be mapped, and
/// the mandatory fields must be set.
pub open spec fn enums_group_from_pairs(ps: Seq<AttrV>) -> Result<EnumsGroupV, ErrV> {
    match first_err_by(ps, enums_group_checker()) {
        Some(e) => Err(e),
        None => if or_empty(last_val(ps, "name"@)).len() == 0 {
            Err(missing_err("name"@, "EnumsGroup"@))
        } else {
            Ok(
                EnumsGroupV {
                    name: or_empty(last_val(ps, "name"@)),
                    comment: last_val(ps, "comment"@),
                    values: Seq::empty(),
                    aliases: Seq::empty(),
                    bit_positions: Seq::empty(),
                    ty: last_val(ps, "type"@),
                    is_64_bit: found(ps, "bitwidth"@),
                },
            )
        },
    }
}

impl EnumsGroup {
    /// Builds an `EnumsGroup` from decoded attribute pairs.
    #[verifier::loop_isolation(false)]
    pub fn from_pairs(pairs: &Vec<Attr>) -> (r: Result<EnumsGroup, ParseError>)
        ensures
            res_view(r) == enums_group_from_pairs(attrs_view(pairs@)),
    {
        let ghost aps = attrs_view(pairs@);
        let ghost f = enums_group_checker();
        let mut name: Option<String> = None;
        let mut comment: Option<String> = None;
        let mut ty: Option<String> = None;
        let mut is_64_bit: bool = false;
        let mut idx: usize = 0;
        proof {
            assert(aps.skip(0) =~= aps);
            assert(aps.take(0) =~= Seq::<AttrV>::empty());
        }
        while idx < pairs.len()
            invariant
                idx <= pairs@.len(),
                first_err_by(aps, f) == first_err_by(aps.skip(idx as int), f),
                opt_view(name) == last_val(aps.take(idx as int), "name"@),
                opt_view(comment) == last_val(aps.take(idx as int), "comment"@),
                opt_view(ty) == last_val(aps.take(idx as int), "type"@),
                is_64_bit == found(aps.take(idx as int), "bitwidth"@),
            decreases pairs@.len() - idx,
        {
            let ghost p = aps[idx as int];
            proof {
                enums_group_key_facts();
                assert(p == pairs@[idx as int]@);
                assert(aps.skip(idx as int)[0] == p);
                assert(aps.skip(idx as int).drop_first() =~= aps.skip(idx as int + 1));
                assert(aps.take(idx as int + 1).drop_last() =~= aps.take(idx as int));
                assert(aps.take(idx as int + 1).last() == p);
            }
            let a = &pairs[idx];
            if str_eq(a.key.as_str(), "name") {
                name = Some(a.value.clone());
            } else if str_eq(a.key.as_str(), "comment") {
                comment = Some(a.value.clone());
            } else if str_eq(a.key.as_str(), "type") {
                ty = Some(a.value.clone());
            } else if str_eq(a.key.as_str(), "bitwidth") {
                if str_eq(a.value.as_str(), "64") {
                    is_64_bit = true;
                } else {
                    return Err(ParseError::MalformedAttributeValue {
                        key: a.key.clone(),
                        raw_value: a.value.clone(),
                    });
                }
            } else {
                return Err(ParseError::UnexpectedAttribute {
                    key: a.key.clone(),
                    record_kind: "EnumsGroup".to_owned(),
                });
            }
            idx += 1;
        }
        proof {
            assert(aps.skip(pairs@.len() as int) =~= Seq::<AttrV>::empty());
            assert(aps.take(pairs@.len() as int) =~= aps);
        }
        let name = match name {
            Some(v) => v,
            None => {
                return Err(ParseError::MissingRequiredAttribute {
                    name: "name".to_owned(),
                    record_kind: "EnumsGroup".to_owned(),
                });
            },
        };
        if name.as_str().is_empty() {
            return Err(ParseError::MissingRequiredAttribute {
                name: "name".to_owned(),
                record_kind: "EnumsGroup".to_owned(),
            });
        }
        proof {
            assert(seq_view(Seq::<EnumValue>::empty()) =~= Seq::<EnumValueV>::empty());
            assert(seq_view(Seq::<EnumAlias>::empty()) =~= Seq::<EnumAliasV>::empty());
            assert(seq_view(Seq::<EnumBitPosition>::empty()) =~= Seq::<EnumBitPositionV>::empty());
        }
        Ok(EnumsGroup {
            name,
            comment,
            values: Vec::new(),
            aliases: Vec::new(),
            bit_positions: Vec::new(),
            ty,
            is_64_bit,
        })
    }

    /// Builds an `EnumsGroup` from a tag's raw attribute text.
    pub fn from_attrs(attrs: &str) -> (r: Result<EnumsGroup, ParseError>)
        ensures
            res_view(r) == enums_group_from_pairs(attrs_of(attrs@)),
    {
        let pairs = decode_attrs(attrs);
        EnumsGroup::from_pairs(&pairs)
    }
}

/// Permuting the tag's attribute pairs never changes the
/// record built, as long as the pair list is valid: keys all distinct and
/// the record accepted.
pub proof fn lemma_enums_group_attr_order(ps1: Seq<AttrV>, ps2: Seq<AttrV>)
    requires
        keys_distinct(ps1),
        ps1.to_multiset() == ps2.to_multiset(),
        enums_group_from_pairs(ps1) is Ok,
    ensures
        enums_group_from_pairs(ps2) == enums_group_from_pairs(ps1),
{
    lemma_first_err_by_permutation_none(ps1, ps2, enums_group_checker());
    lemma_last_val_permutation(ps1, ps2, "name"@);
    lemma_last_val_permutation(ps1, ps2, "comment"@);
    lemma_last_val_permutation(ps1, ps2, "type"@);
    lemma_last_val_permutation(ps1, ps2, "bitwidth"@);
}

/// An enumeration entry carrying an explicit value.
#[derive(Debug, Clone, PartialEq, Eq)]
pub struct EnumValue {
    pub name: String,
    pub value: String,
    pub comment: Option<String>,
}

/// The mathematical value of a [`EnumValue`].
pub ghost struct EnumValueV {
    pub name: Seq<char>,
    pub value: Seq<char>,
    pub comment: Option<Seq<char>>,
}

impl View for EnumValue {
    type V = EnumValueV;

    open spec fn view(&self) -> EnumValueV {
        EnumValueV {
            name: self.name@,
            value: self.value@,
            comment: opt_view(self.comment),
        }
    }
}

pub open spec fn enum_value_pair_err(p: AttrV) -> Option<ErrV> {
    if p.key == "name"@ {
        None
    } else if p.key == "value"@ {
        None
    } else if p.key == "comment"@ {
        None
    } else {
        Some(ErrV::UnexpectedAttribute { key: p.key, record_kind: "EnumValue"@ })
    }
}

pub open spec fn enum_value_checker() -> spec_fn(AttrV) -> Option<ErrV> {
    |p: AttrV| enum_value_pair_err(p)
}

/// The attribute keys (and checked attribute values) of this record kind
/// are pairwise distinct text.
proof fn enum_value_key_facts()
    ensures
        "name"@ != "value"@,
        "name"@ != "comment"@,
        "value"@ != "comment"@,
{
    reveal_strlit("comment");
    reveal_strlit("name");
    reveal_strlit("value");
    assert("comment"@.len() == 7);
    assert("comment"@[0] == 'c');
    assert("comment"@[1] == 'o');
    assert("comment"@[2] == 'm');
    assert("comment"@[3] == 'm');
    assert("comment"@[4] == 'e');
    assert("comment"@[5] == 'n');
    assert("comment"@[6] == 't');
    assert("name"@.len() == 4);
    assert("name"@[0] == 'n');
    assert("name"@[1] == 'a');
    assert("name"@[2] == 'm');
    assert("name"@[3] == 'e');
    assert("value"@.len() == 5);
    assert("value"@[0] == 'v');
    assert("value"@[1] == 'a');
    assert("value"@[2] == 'l');
    assert("value"@[3] == 'u');
    assert("value"@[4] == 'e');
}

/// The record built from decoded pairs: every key must be mapped, and
/// the mandatory fields must be set.
pub open spec fn enum_value_from_pairs(ps: Seq<AttrV>) -> Result<EnumValueV, ErrV> {
    match first_err_by(ps, enum_value_checker()) {
        Some(e) => Err(e),
        None => if or_empty(last_val(ps, "name"@)).len() == 0 {
            Err(missing_err("name"@, "EnumValue"@))
        } else {
            Ok(
                EnumValueV {
                    name: or_empty(last_val(ps, "name"@)),
                    value: or_empty(last_val(ps, "value"@)),
                    comment: last_val(ps, "comment"@),
                },
            )
        },
    }
}

impl EnumValue {
    /// Builds an `EnumValue` from decoded attribute pairs.
    #[verifier::loop_isolation(false)]
    pub fn from_pairs(pairs: &Vec<Attr>) -> (r: Result<EnumValue, ParseError>)
        ensures
            res_view(r) == enum_value_from_pairs(attrs_view(pairs@)),
    {
        let ghost aps = attrs_view(pairs@);
        let ghost f = enum_value_checker();
        let mut name: Option<String> = None;
        let mut value: String = String::new();
        let mut comment: Option<String> = None;
        let mut idx: usize = 0;
        proof {
            assert(aps.skip(0) =~= aps);
            assert(aps.take(0) =~= Seq::<AttrV>::empty());
        }
        while idx < pairs.len()
            invariant
                idx <= pairs@.len(),
                first_err_by(aps, f) == first_err_by(aps.skip(idx as int), f),
                opt_view(name) == last_val(aps.take(idx as int), "name"@),
                value@ == or_empty(last_val(aps.take(idx as int), "value"@)),
                opt_view(comment) == last_val(aps.take(idx as int), "comment"@),
            decreases pairs@.len() - idx,
        {
            let ghost p = aps[idx as int];
            proof {
                enum_value_key_facts();
                assert(p == pairs@[idx as int]@);
                assert(aps.skip(idx as int)[0] == p);
                assert(aps.skip(idx as int).drop_first() =~= aps.skip(idx as int + 1));
                assert(aps.take(idx as int + 1).drop_last() =~= aps.take(idx as int));
                assert(aps.take(idx as int + 1).last() == p);
            }
            let a = &pairs[idx];
            if str_eq(a.key.as_str(), "name") {
                name = Some(a.value.clone());
            } else if str_eq(a.key.as_str(), "value") {
                value = a.value.clone();
            } else if str_eq(a.key.as_str(), "comment") {
                comment = Some(a.value.clone());
            } else {
                return Err(ParseError::UnexpectedAttribute {
                    key: a.key.clone(),
                    record_kind: "EnumValue".to_owned(),
                });
            }
            idx += 1;
        }
        proof {
            assert(aps.skip(pairs@.len() as int) =~= Seq::<AttrV>::empty());
            assert(aps.take(pairs@.len() as int) =~= aps);
        }
        let name = match name {
            Some(v) => v,
            None => {
                return Err(ParseError::MissingRequiredAttribute {
                    name: "name".to_owned(),
                    record_kind: "EnumValue".to_owned(),
                });
            },
        };
        if name.as_str().is_empty() {
            return Err(ParseError::MissingRequiredAttribute {
                name: "name".to_owned(),
                record_kind: "EnumValue".to_owned(),
            });
        }
        Ok(EnumValue {
            name,
            value,
            comment,
        })
    }

    /// Builds an `EnumValue` from a tag's raw attribute text.
    pub fn from_attrs(attrs: &str) -> (r: Result<EnumValue, ParseError>)
        ensures
            res_view(r) == enum_value_from_pairs(attrs_of(attrs@)),
    {
        let pairs = decode_attrs(attrs);
        EnumValue::from_pairs(&pairs)
    }
}

/// Permuting the tag's attribute pairs never changes the
/// record built, as long as the pair list is valid: keys all distinct and
/// the record accepted.
pub proof fn lemma_enum_value_attr_order(ps1: Seq<AttrV>, ps2: Seq<AttrV>)
    requires
        keys_distinct(ps1),
        ps1.to_multiset() == ps2.to_multiset(),
        enum_value_from_pairs(ps1) is Ok,
    ensures
        enum_value_from_pairs(ps2) == enum_value_from_pairs(ps1),
{
    lemma_first_err_by_permutation_none(ps1, ps2, enum_value_checker());
    lemma_last_val_permutation(ps1, ps2, "name"@);
    lemma_last_val_permutation(ps1, ps2, "value"@);
    lemma_last_val_permutation(ps1, ps2, "comment"@);
}

/// An enumeration entry that stands for another entry by name.
#[derive(Debug, Clone, PartialEq, Eq)]
pub struct EnumAlias {
    pub name: String,
    pub alias_of: String,
    pub api: Option<String>,
    pub deprecated: Option<String>,
}

/// The mathematical value of a [`EnumAlias`].
pub ghost struct EnumAliasV {
    pub name: Seq<char>,
    pub alias_of: Seq<char>,
    pub api: Option<Seq<char>>,
    pub deprecated: Option<Seq<char>>,
}

impl View for EnumAlias {
    type V = EnumAliasV;

    open spec fn view(&self) -> EnumAliasV {
        EnumAliasV {
            name: self.name@,
            alias_of: self.alias_of@,
            api: opt_view(self.api),
            deprecated: opt_view(self.deprecated),
        }
    }
}

pub open spec fn enum_alias_pair_err(p: AttrV) -> Option<ErrV> {
    if p.key == "name"@ {
        None
    } else if p.key == "alias"@ {
        None
    } else if p.key == "api"@ {
        None
    } else if p.key == "deprecated"@ {
        None
    } else {
        Some(ErrV::UnexpectedAttribute { key: p.key, record_kind: "EnumAlias"@ })
    }
}

pub open spec fn enum_alias_checker() -> spec_fn(AttrV) -> Option<ErrV> {
    |p: AttrV| enum_alias_pair_err(p)
}

/// The attribute keys (and checked attribute values) of this record kind
/// are pairwise distinct text.
proof fn enum_alias_key_facts()
    ensures
        "name"@ != "alias"@,
        "name"@ != "api"@,
        "name"@ != "deprecated"@,
        "alias"@ != "api"@,
        "alias"@ != "deprecated"@,
        "api"@ != "deprecated"@,
{
    reveal_strlit("alias");
    reveal_strlit("api");
    reveal_strlit("deprecated");
    reveal_strlit("name");
    assert("alias"@.len() == 5);
    assert("alias"@[0] == 'a');
    assert("alias"@[1] == 'l');
    assert("alias"@[2] == 'i');
    assert("alias"@[3] == 'a');
    assert("alias"@[4] == 's');
    assert("api"@.len() == 3);
    assert("api"@[0] == 'a');
    assert("api"@[1] == 'p');
    assert("api"@[2] == 'i');
    assert("deprecated"@.len() == 10);
    assert("deprecated"@[0] == 'd');
    assert("deprecated"@[1] == 'e');
    assert("deprecated"@[2] == 'p');
    assert("deprecated"@[3] == 'r');
    assert("deprecated"@[4] == 'e');
    assert("deprecated"@[5] == 'c');
    assert("deprecated"@[6] == 'a');
    assert("deprecated"@[7] == 't');
    assert("deprecated"@[8] == 'e');
    assert("deprecated"@[9] == 'd');
    assert("name"@.len() == 4);
    assert("name"@[0] == 'n');
    assert("name"@[1] == 'a');
    assert("name"@[2] == 'm');
    assert("name"@[3] == 'e');
}

/// The record built from decoded pairs: every key must be mapped, and
/// the mandatory fields must be set.
pub open spec fn enum_alias_from_pairs(ps: Seq<AttrV>) -> Result<EnumAliasV, ErrV> {
    match first_err_by(ps, enum_alias_checker()) {
        Some(e) => Err(e),
        None => if or_empty(last_val(ps, "name"@)).len() == 0 {
            Err(missing_err("name"@, "EnumAlias"@))
        } else {
            Ok(
                EnumAliasV {
                    name: or_empty(last_val(ps, "name"@)),
                    alias_of: or_empty(last_val(ps, "alias"@)),
                    api: last_val(ps, "api"@),
                    deprecated: last_val(ps, "deprecated"@),
                },
            )
        },
    }
}

impl EnumAlias {
    /// Builds an `EnumAlias` from decoded attribute pairs.
    #[verifier::loop_isolation(false)]
    pub fn from_pairs(pairs: &Vec<Attr>) -> (r: Result<EnumAlias, ParseError>)
        ensures
            res_view(r) == enum_alias_from_pairs(attrs_view(pairs@)),
    {
        let ghost aps = attrs_view(pairs@);
        let ghost f = enum_alias_checker();
        let mut name: Option<String> = None;
        let mut alias_of: String = String::new();
        let mut api: Option<String> = None;
        let mut deprecated: Option<String> = None;
        let mut idx: usize = 0;
        proof {
            assert(aps.skip(0) =~= aps);
            assert(aps.take(0) =~= Seq::<AttrV>::empty());
        }
        while idx < pairs.len()
            invariant
                idx <= pairs@.len(),
                first_err_by(aps, f) == first_err_by(aps.skip(idx as int), f),
                opt_view(name) == last_val(aps.take(idx as int), "name"@),
                alias_of@ == or_empty(last_val(aps.take(idx as int), "alias"@)),
                opt_view(api) == last_val(aps.take(idx as int), "api"@),
                opt_view(deprecated) == last_val(aps.take(idx as int), "deprecated"@),
            decreases pairs@.len() - idx,
        {
            let ghost p = aps[idx as int];
            proof {
                enum_alias_key_facts();
                assert(p == pairs@[idx as int]@);
                assert(aps.skip(idx as int)[0] == p);
                assert(aps.skip(idx as int).drop_first() =~= aps.skip(idx as int + 1));
                assert(aps.take(idx as int + 1).drop_last() =~= aps.take(idx as int));
                assert(aps.take(idx as int + 1).last() == p);
            }
            let a = &pairs[idx];
            if str_eq(a.key.as_str(), "name") {
                name = Some(a.value.clone());
            } else if str_eq(a.key.as_str(), "alias") {
                alias_of = a.value.clone();
            } else if str_eq(a.key.as_str(), "api") {
                api = Some(a.value.clone());
            } else if str_eq(a.key.as_str(), "deprecated") {
                deprecated = Some(a.value.clone());
            } else {
                return Err(ParseError::UnexpectedAttribute {
                    key: a.key.clone(),
                    record_kind: "EnumAlias".to_owned(),
                });
            }
            idx += 1;
        }
        proof {
            assert(aps.skip(pairs@.len() as int) =~= Seq::<AttrV>::empty());
            assert(aps.take(pairs@.len() as int) =~= aps);
        }
        let name = match name {
            Some(v) => v,
            None => {
                return Err(ParseError::MissingRequiredAttribute {
                    name: "name".to_owned(),
                    record_kind: "EnumAlias".to_owned(),
                });
            },
        };
        if name.as_str().is_empty() {
            return Err(ParseError::MissingRequiredAttribute {
                name: "name".to_owned(),
                record_kind: "EnumAlias".to_owned(),
            });
        }
        Ok(EnumAlias {
            name,
            alias_of,
            api,
            deprecated,
        })
    }

    /// Builds an `EnumAlias` from a tag's raw attribute text.
    pub fn from_attrs(attrs: &str) -> (r: Result<EnumAlias, ParseError>)
        ensures
            res_view(r) == enum_alias_from_pairs(attrs_of(attrs@)),
    {
        let pairs = decode_attrs(attrs);
        EnumAlias::from_pairs(&pairs)
    }
}

/// Permuting the tag's attribute pairs never changes the
/// record built, as long as the pair list is valid: keys all distinct and
/// the record accepted.
pub proof fn lemma_enum_alias_attr_order(ps1: Seq<AttrV>, ps2: Seq<AttrV>)
    requires
        keys_distinct(ps1),
        ps1.to_multiset() == ps2.to_multiset(),
        enum_alias_from_pairs(ps1) is Ok,
    ensures
        enum_alias_from_pairs(ps2) == enum_alias_from_pairs(ps1),
{
    lemma_first_err_by_permutation_none(ps1, ps2, enum_alias_checker());
    lemma_last_val_permutation(ps1, ps2, "name"@);
    lemma_last_val_permutation(ps1, ps2, "alias"@);
    lemma_last_val_permutation(ps1, ps2, "api"@);
    lemma_last_val_permutation(ps1, ps2, "deprecated"@);
}

/// An enumeration entry defined by a bit position.
#[derive(Debug, Clone, PartialEq, Eq)]
pub struct EnumBitPosition {
    pub name: String,
    pub bit: String,
    pub comment: Option<String>,
}

/// The mathematical value of a [`EnumBitPosition`].
pub ghost struct EnumBitPositionV {
    pub name: Seq<char>,
    pub bit: Seq<char>,
    pub comment: Option<Seq<char>>,
}

impl View for EnumBitPosition {
    type V = EnumBitPositionV;

    open spec fn view(&self) -> EnumBitPositionV {
        EnumBitPositionV {
            name: self.name@,
            bit: self.bit@,
            comment: opt_view(self.comment),
        }
    }
}

pub open spec fn enum_bit_position_pair_err(p: AttrV) -> Option<ErrV> {
    if p.key == "name"@ {
        None
    } else if p.key == "bitpos"@ {
        None
    } else if p.key == "comment"@ {
        None
    } else {
        Some(ErrV::UnexpectedAttribute { key: p.key, record_kind: "EnumBitPosition"@ })
    }
}

pub open spec fn enum_bit_position_checker() -> spec_fn(AttrV) -> Option<ErrV> {
    |p: AttrV| enum_bit_position_pair_err(p)
}

/// The attribute keys (and checked attribute values) of this record kind
/// are pairwise distinct text.
proof fn enum_bit_position_key_facts()
    ensures
        "name"@ != "bitpos"@,
        "name"@ != "comment"@,
        "bitpos"@ != "comment"@,
{
    reveal_strlit("bitpos");
    reveal_strlit("comment");
    reveal_strlit("name");
    assert("bitpos"@.len() == 6);
    assert("bitpos"@[0] == 'b');
    assert("bitpos"@[1] == 'i');
    assert("bitpos"@[2] == 't');
    assert("bitpos"@[3] == 'p');
    assert("bitpos"@[4] == 'o');
    assert("bitpos"@[5] == 's');
    assert("comment"@.len() == 7);
    assert("comment"@[0] == 'c');
    assert("comment"@[1] == 'o');
    assert("comment"@[2] == 'm');
    assert("comment"@[3] == 'm');
    assert("comment"@[4] == 'e');
    assert("comment"@[5] == 'n');
    assert("comment"@[6] == 't');
    assert("name"@.len() == 4);
    assert("name"@[0] == 'n');
    assert("name"@[1] == 'a');
    assert("name"@[2] == 'm');
    assert("name"@[3] == 'e');
}

/// The record built from decoded pairs: every key must be mapped, and
/// the mandatory fields must be set.
pub open spec fn enum_bit_position_from_pairs(ps: Seq<AttrV>) -> Result<EnumBitPositionV, ErrV> {
    match first_err_by(ps, enum_bit_position_checker()) {
        Some(e) => Err(e),
        None => if or_empty(last_val(ps, "name"@)).len() == 0 {
            Err(missing_err("name"@, "EnumBitPosition"@))
        } else {
            Ok(
                EnumBitPositionV {
                    name: or_empty(last_val(ps, "name"@)),
                    bit: or_empty(last_val(ps, "bitpos"@)),
                    comment: last_val(ps, "comment"@),
                },
            )
        },
    }
}

impl EnumBitPosition {
    /// Builds an `EnumBitPosition` from decoded attribute pairs.
    #[verifier::loop_isolation(false)]
    pub fn from_pairs(pairs: &Vec<Attr>) -> (r: Result<EnumBitPosition, ParseError>)
        ensures
            res_view(r) == enum_bit_position_from_pairs(attrs_view(pairs@)),
    {
        let ghost aps = attrs_view(pairs@);
        let ghost f = enum_bit_position_checker();
        let mut name: Option<String> = None;
        let mut bit: String = String::new();
        let mut comment: Option<String> = None;
        let mut idx: usize = 0;
        proof {
            assert(aps.skip(0) =~= aps);
            assert(aps.take(0) =~= Seq::<AttrV>::empty());
        }
        while idx < pairs.len()
            invariant
                idx <= pairs@.len(),
                first_err_by(aps, f) == first_err_by(aps.skip(idx as int), f),
                opt_view(name) == last_val(aps.take(idx as int), "name"@),
                bit@ == or_empty(last_val(aps.take(idx as int), "bitpos"@)),
                opt_view(comment) == last_val(aps.take(idx as int), "comment"@),
            decreases pairs@.len() - idx,
        {
            let ghost p = aps[idx as int];
            proof {
                enum_bit_position_key_facts();
                assert(p == pairs@[idx as int]@);
                assert(aps.skip(idx as int)[0] == p);
                assert(aps.skip(idx as int).drop_first() =~= aps.skip(idx as int + 1));
                assert(aps.take(idx as int + 1).drop_last() =~= aps.take(idx as int));
                assert(aps.take(idx as int + 1).last() == p);
            }
            let a = &pairs[idx];
            if str_eq(a.key.as_str(), "name") {
                name = Some(a.value.clone());
            } else if str_eq(a.key.as_str(), "bitpos") {
                bit = a.value.clone();
            } else if str_eq(a.key.as_str(), "comment") {
                comment = Some(a.value.clone());
            } else {
                return Err(ParseError::UnexpectedAttribute {
                    key: a.key.clone(),
                    record_kind: "EnumBitPosition".to_owned(),
                });
            }
            idx += 1;
        }
        proof {
            assert(aps.skip(pairs@.len() as int) =~= Seq::<AttrV>::empty());
            assert(aps.take(pairs@.len() as int) =~= aps);
        }
        let name = match name {
            Some(v) => v,
            None => {
                return Err(ParseError::MissingRequiredAttribute {
                    name: "name".to_owned(),
                    record_kind: "EnumBitPosition".to_owned(),
                });
            },
        };
        if name.as_str().is_empty() {
            return Err(ParseError::MissingRequiredAttribute {
                name: "name".to_owned(),
                record_kind: "EnumBitPosition".to_owned(),
            });
        }
        Ok(EnumBitPosition {
            name,
            bit,
            comment,
        })
    }

    /// Builds an `EnumBitPosition` from a tag's raw attribute text.
    pub fn from_attrs(attrs: &str) -> (r: Result<EnumBitPosition, ParseError>)
        ensures
            res_view(r) == enum_bit_position_from_pairs(attrs_of(attrs@)),
    {
        let pairs = decode_attrs(attrs);
        EnumBitPosition::from_pairs(&pairs)
    }
}

/// Permuting the tag's attribute pairs never changes the
/// record built, as long as the pair list is valid: keys all distinct and
/// the record accepted.
pub proof fn lemma_enum_bit_position_attr_order(ps1: Seq<AttrV>, ps2: Seq<AttrV>)
    requires
        keys_distinct(ps1),
        ps1.to_multiset() == ps2.to_multiset(),
        enum_bit_position_from_pairs(ps1) is Ok,
    ensures
        enum_bit_position_from_pairs(ps2) == enum_bit_position_from_pairs(ps1),
{
    lemma_first_err_by_permutation_none(ps1, ps2, enum_bit_position_checker());
    lemma_last_val_permutation(ps1, ps2, "name"@);
    lemma_last_val_permutation(ps1, ps2, "bitpos"@);
    lemma_last_val_permutation(ps1, ps2, "comment"@);
}


/// The priority-ordered keys that classify an empty `<enum/>` tag inside an
/// enumeration group: `value`, then `alias`, then `bitpos`.
pub open spec fn enum_entry_keys() -> Seq<Seq<char>> {
    seq!["value"@, "alias"@, "bitpos"@]
}

/// One empty `<enum/>` tag inside an enumeration group, classified by the
/// fixed-priority presence scan and appended to the matching list of `g`.
pub open spec fn spec_enums_empty_enum(g: EnumsGroupV, attrs: Seq<char>) -> Result<
    EnumsGroupV,
    ErrV,
> {
    let aps = attrs_of(attrs);
    match spec_classify(aps, enum_entry_keys()) {
        Some(c) => if c == 0 {
            match enum_value_from_pairs(aps) {
                Ok(v) => Ok(EnumsGroupV { values: g.values.push(v), ..g }),
                Err(e) => Err(e),
            }
        } else if c == 1 {
            match enum_alias_from_pairs(aps) {
                Ok(v) => Ok(EnumsGroupV { aliases: g.aliases.push(v), ..g }),
                Err(e) => Err(e),
            }
        } else {
            match enum_bit_position_from_pairs(aps) {
                Ok(v) => Ok(EnumsGroupV { bit_positions: g.bit_positions.push(v), ..g }),
                Err(e) => Err(e),
            }
        },
        None => Err(ErrV::AmbiguousEnumEntry { attrs }),
    }
}

/// Classifies one empty `<enum/>` tag and appends the entry to the matching
/// list of the group being built.
pub fn do_enums_empty_enum(enums: &mut EnumsGroup, attrs: &str) -> (r: Result<(), ParseError>)
    ensures
        match r {
            Ok(()) => spec_enums_empty_enum(old(enums)@, attrs@) == Ok::<EnumsGroupV, ErrV>(
                final(enums)@,
            ),
            Err(e) => spec_enums_empty_enum(old(enums)@, attrs@) == Err::<EnumsGroupV, ErrV>(e@),
        },
{
    let pairs = decode_attrs(attrs);
    let keys: Vec<&str> = vec!["value", "alias", "bitpos"];
    proof {
        assert(seq_view(keys@) =~= enum_entry_keys());
    }
    match classify_by_presence(&pairs, &keys) {
        Some(c) => {
            if c == 0 {
                match EnumValue::from_pairs(&pairs) {
                    Ok(v) => {
                        proof {
                            assert(seq_view(enums.values@.push(v)) =~= seq_view(
                                enums.values@,
                            ).push(v@));
                        }
                        enums.values.push(v);
                        Ok(())
                    },
                    Err(e) => Err(e),
                }
            } else if c == 1 {
                match EnumAlias::from_pairs(&pairs) {
                    Ok(v) => {
                        proof {
                            assert(seq_view(enums.aliases@.push(v)) =~= seq_view(
                                enums.aliases@,
                            ).push(v@));
                        }
                        enums.aliases.push(v);
                        Ok(())
                    },
                    Err(e) => Err(e),
                }
            } else {
                match EnumBitPosition::from_pairs(&pairs) {
                    Ok(v) => {
                        proof {
                            assert(seq_view(enums.bit_positions@.push(v)) =~= seq_view(
                                enums.bit_positions@,
                            ).push(v@));
                        }
                        enums.bit_positions.push(v);
                        Ok(())
                    },
                    Err(e) => Err(e),
                }
            }
        },
        None => Err(ParseError::AmbiguousEnumEntry { attrs: attrs.to_owned() }),
    }
}

/// The body of an `"API Constants"` enums section: each empty `<enum/>` is
/// an alias if an `alias` key is present, else a plain constant.
pub open spec fn parse_api_constants(
    ev: Seq<EventV>,
    i: int,
    cs: Seq<ApiConstantV>,
    als: Seq<ApiConstantAliasV>,
) -> Result<(Seq<ApiConstantV>, Seq<ApiConstantAliasV>, int), ErrV>
    decreases ev.len() - i,
{
    if i < 0 || i >= ev.len() {
        Err(end_err("enums"@))
    } else {
        match ev[i] {
            EventV::End { name } => if name == "enums"@ {
                Ok((cs, als, i + 1))
            } else {
                Err(elem_err(name, "enums"@))
            },
            EventV::Empty { name, attrs } => if name == "enum"@ {
                if found(attrs_of(attrs), "alias"@) {
                    match api_constant_alias_from_pairs(attrs_of(attrs)) {
                        Ok(a) => parse_api_constants(ev, i + 1, cs, als.push(a)),
                        Err(e) => Err(e),
                    }
                } else {
                    match api_constant_from_pairs(attrs_of(attrs)) {
                        Ok(c) => parse_api_constants(ev, i + 1, cs.push(c), als),
                        Err(e) => Err(e),
                    }
                }
            } else {
                Err(elem_err(name, "enums"@))
            },
            e => Err(elem_err(ev_tag(e), "enums"@)),
        }
    }
}

/// The body of an ordinary enumeration group: empty `<enum/>` entries
/// classified by priority, skipped comments, and ignored `<unused/>` tags,
/// through the closing tag.
pub open spec fn parse_enums_group(ev: Seq<EventV>, i: int, g: EnumsGroupV) -> Result<
    (EnumsGroupV, int),
    ErrV,
>
    decreases ev.len() - i,
    via parse_enums_group_dec
{
    if i < 0 || i >= ev.len() {
        Err(end_err("enums"@))
    } else {
        match ev[i] {
            EventV::End { name } => if name == "enums"@ {
                Ok((g, i + 1))
            } else {
                Err(elem_err(name, "enums"@))
            },
            EventV::Empty { name, attrs } => if name == "enum"@ {
                match spec_enums_empty_enum(g, attrs) {
                    Ok(g2) => parse_enums_group(ev, i + 1, g2),
                    Err(e) => Err(e),
                }
            } else if name == "unused"@ {
                parse_enums_group(ev, i + 1, g)
            } else {
                Err(elem_err(name, "enums"@))
            },
            EventV::Start { name, attrs } => if name == "comment"@ && attrs.len() == 0 {
                match skip_comment(ev, i + 1) {
                    Ok(j) => parse_enums_group(ev, j, g),
                    Err(e) => Err(e),
                }
            } else {
                Err(elem_err(name, "enums"@))
            },
            e => Err(elem_err(ev_tag(e), "enums"@)),
        }
    }
}

#[via_fn]
proof fn parse_enums_group_dec(ev: Seq<EventV>, i: int, g: EnumsGroupV) {
    lemma_skip_comment_advances(ev, i + 1);
}

/// An `<enums>` section: its `name` attribute picks between the API-constant
/// form and an ordinary enumeration group.
pub open spec fn spec_do_enums(
    ev: Seq<EventV>,
    i: int,
    attrs: Seq<char>,
    cs: Seq<ApiConstantV>,
    als: Seq<ApiConstantAliasV>,
    gs: Seq<EnumsGroupV>,
) -> Result<(Seq<ApiConstantV>, Seq<ApiConstantAliasV>, Seq<EnumsGroupV>, int), ErrV> {
    match first_val(attrs_of(attrs), "name"@) {
        None => Err(missing_err("name"@, "EnumsGroup"@)),
        Some(n) => if n == "API Constants"@ {
            match parse_api_constants(ev, i, cs, als) {
                Ok((cs2, als2, j)) => Ok((cs2, als2, gs, j)),
                Err(e) => Err(e),
            }
        } else {
            match enums_group_from_pairs(attrs_of(attrs)) {
                Ok(g) => match parse_enums_group(ev, i, g) {
                    Ok((g2, j)) => Ok((cs, als, gs.push(g2), j)),
                    Err(e) => Err(e),
                },
                Err(e) => Err(e),
            }
        },
    }
}

/// Consumes an `<enums>` section, filling the constant lists or appending
/// one enumeration group, and returns the position just past the closing
/// tag.
#[verifier::loop_isolation(false)]
pub fn do_enums(
    api_constants: &mut Vec<ApiConstant>,
    api_constant_aliases: &mut Vec<ApiConstantAlias>,
    enums_groups: &mut Vec<EnumsGroup>,
    attrs: &str,
    events: &Vec<XmlEvent>,
    pos: usize,
) -> (r: Result<usize, ParseError>)
    ensures
        match r {
            Ok(j) => spec_do_enums(
                events_view(events@),
                pos as int,
                attrs@,
                seq_view(old(api_constants)@),
                seq_view(old(api_constant_aliases)@),
                seq_view(old(enums_groups)@),
            ) == Ok::<_, ErrV>(
                (
                    seq_view(final(api_constants)@),
                    seq_view(final(api_constant_aliases)@),
                    seq_view(final(enums_groups)@),
                    j as int,
                ),
            ),
            Err(e) => spec_do_enums(
                events_view(events@),
                pos as int,
                attrs@,
                seq_view(old(api_constants)@),
                seq_view(old(api_constant_aliases)@),
                seq_view(old(enums_groups)@),
            ) == Err::<(Seq<ApiConstantV>, Seq<ApiConstantAliasV>, Seq<EnumsGroupV>, int), ErrV>(
                e@,
            ),
        },
{
    let ghost ev = events_view(events@);
    let pairs = decode_attrs(attrs);
    let name = match find_attr_value(&pairs, "name") {
        Some(n) => n,
        None => {
            return Err(ParseError::MissingRequiredAttribute {
                name: "name".to_owned(),
                record_kind: "EnumsGroup".to_owned(),
            });
        },
    };
    if str_eq(name.as_str(), "API Constants") {
        let ghost cs0 = seq_view(old(api_constants)@);
        let ghost als0 = seq_view(old(api_constant_aliases)@);
        let mut cur = pos;
        loop
            invariant
                pos <= cur,
                parse_api_constants(
                    ev,
                    cur as int,
                    seq_view(api_constants@),
                    seq_view(api_constant_aliases@),
                ) == parse_api_constants(ev, pos as int, cs0, als0),
                enums_groups@ == old(enums_groups)@,
            decreases ev.len() - cur,
        {
            if cur >= events.len() {
                return Err(ParseError::UnexpectedElement {
                    tag: String::new(),
                    context: "enums".to_owned(),
                });
            }
            proof {
                assert(ev[cur as int] == events@[cur as int]@);
            }
            match &events[cur] {
                XmlEvent::End { name: n } => {
                    if str_eq(n.as_str(), "enums") {
                        return Ok(cur + 1);
                    } else {
                        return Err(ParseError::UnexpectedElement {
                            tag: n.clone(),
                            context: "enums".to_owned(),
                        });
                    }
                },
                XmlEvent::Empty { name: n, attrs: a } => {
                    if str_eq(n.as_str(), "enum") {
                        let epairs = decode_attrs(a.as_str());
                        if has_attr_key(&epairs, "alias") {
                            match ApiConstantAlias::from_pairs(&epairs) {
                                Ok(al) => {
                                    proof {
                                        assert(seq_view(api_constant_aliases@.push(al)) =~= seq_view(
                                            api_constant_aliases@,
                                        ).push(al@));
                                    }
                                    api_constant_aliases.push(al);
                                },
                                Err(e) => {
                                    return Err(e);
                                },
                            }
                        } else {
                            match ApiConstant::from_pairs(&epairs) {
                                Ok(c) => {
                                    proof {
                                        assert(seq_view(api_constants@.push(c)) =~= seq_view(
                                            api_constants@,
                                        ).push(c@));
                                    }
                                    api_constants.push(c);
                                },
                                Err(e) => {
                                    return Err(e);
                                },
                            }
                        }
                    } else {
                        return Err(ParseError::UnexpectedElement {
                            tag: n.clone(),
                            context: "enums".to_owned(),
                        });
                    }
                },
                e => {
                    return Err(ParseError::UnexpectedElement {
                        tag: exec_ev_tag(e),
                        context: "enums".to_owned(),
                    });
                },
            }
            cur += 1;
        }
    } else {
        let mut enums = match EnumsGroup::from_attrs(attrs) {
            Ok(g) => g,
            Err(e) => {
                return Err(e);
            },
        };
        let ghost g0 = enums@;
        let mut cur = pos;
        loop
            invariant
                pos <= cur,
                parse_enums_group(ev, cur as int, enums@) == parse_enums_group(ev, pos as int, g0),
                api_constants@ == old(api_constants)@,
                api_constant_aliases@ == old(api_constant_aliases)@,
                enums_groups@ == old(enums_groups)@,
            decreases ev.len() - cur,
        {
            if cur >= events.len() {
                return Err(ParseError::UnexpectedElement {
                    tag: String::new(),
                    context: "enums".to_owned(),
                });
            }
            proof {
                assert(ev[cur as int] == events@[cur as int]@);
            }
            match &events[cur] {
                XmlEvent::End { name: n } => {
                    if str_eq(n.as_str(), "enums") {
                        proof {
                            assert(seq_view(enums_groups@.push(enums)) =~= seq_view(
                                enums_groups@,
                            ).push(enums@));
                        }
                        let j = cur + 1;
                        enums_groups.push(enums);
                        return Ok(j);
                    } else {
                        return Err(ParseError::UnexpectedElement {
                            tag: n.clone(),
                            context: "enums".to_owned(),
                        });
                    }
                },
                XmlEvent::Empty { name: n, attrs: a } => {
                    if str_eq(n.as_str(), "enum") {
                        match do_enums_empty_enum(&mut enums, a.as_str()) {
                            Ok(()) => {},
                            Err(e) => {
                                return Err(e);
                            },
                        }
                    } else if str_eq(n.as_str(), "unused") {
                    } else {
                        return Err(ParseError::UnexpectedElement {
                            tag: n.clone(),
                            context: "enums".to_owned(),
                        });
                    }
                },
                XmlEvent::Start { name: n, attrs: a } => {
                    if str_eq(n.as_str(), "comment") && a.as_str().is_empty() {
                        match eat_to_end_of_comment(events, cur + 1) {
                            Ok(j) => {
                                proof {
                                    lemma_skip_comment_advances(ev, cur as int + 1);
                                }
                                cur = j;
                                continue ;
                            },
                            Err(e) => {
                                return Err(e);
                            },
                        }
                    } else {
                        return Err(ParseError::UnexpectedElement {
                            tag: n.clone(),
                            context: "enums".to_owned(),
                        });
                    }
                },
                e => {
                    return Err(ParseError::UnexpectedElement {
                        tag: exec_ev_tag(e),
                        context: "enums".to_owned(),
                    });
                },
            }
            cur += 1;
        }
    }
}

/// An `<enums>` group that closes at once yields the group built from the
/// opening tag alone, with all three entry lists empty as constructed.
pub proof fn lemma_enums_group_empty_section(ev: Seq<EventV>, i: int, g: EnumsGroupV)
    requires
        0 <= i < ev.len(),
        ev[i] == (EventV::End { name: "enums"@ }),
    ensures
        parse_enums_group(ev, i, g) == Ok::<_, ErrV>((g, i + 1)),
{
}


/// An API-constants body only ever moves the cursor forward.
pub proof fn lemma_parse_api_constants_advances(
    ev: Seq<EventV>,
    i: int,
    cs: Seq<ApiConstantV>,
    als: Seq<ApiConstantAliasV>,
)
    ensures
        parse_api_constants(ev, i, cs, als) matches Ok(p) ==> i < p.2 <= ev.len(),
    decreases ev.len() - i,
{
    if 0 <= i < ev.len() {
        match ev[i] {
            EventV::Empty { name, attrs } => {
                if name == "enum"@ {
                    match api_constant_alias_from_pairs(attrs_of(attrs)) {
                        Ok(a) => lemma_parse_api_constants_advances(ev, i + 1, cs, als.push(a)),
                        Err(e) => {},
                    }
                    match api_constant_from_pairs(attrs_of(attrs)) {
                        Ok(c) => lemma_parse_api_constants_advances(ev, i + 1, cs.push(c), als),
                        Err(e) => {},
                    }
                }
            },
            _ => {},
        }
    }
}

/// An enumeration-group body only ever moves the cursor forward.
pub proof fn lemma_parse_enums_group_advances(ev: Seq<EventV>, i: int, g: EnumsGroupV)
    ensures
        parse_enums_group(ev, i, g) matches Ok(p) ==> i < p.1 <= ev.len(),
    decreases ev.len() - i,
{
    if 0 <= i < ev.len() {
        match ev[i] {
            EventV::Empty { name, attrs } => {
                if name == "enum"@ {
                    match spec_enums_empty_enum(g, attrs) {
                        Ok(g2) => lemma_parse_enums_group_advances(ev, i + 1, g2),
                        Err(e) => {},
                    }
                } else if name == "unused"@ {
                    lemma_parse_enums_group_advances(ev, i + 1, g);
                }
            },
            EventV::Start { name, attrs } => {
                if name == "comment"@ && attrs.len() == 0 {
                    lemma_skip_comment_advances(ev, i + 1);
                    match skip_comment(ev, i + 1) {
                        Ok(j) => lemma_parse_enums_group_advances(ev, j, g),
                        Err(e) => {},
                    }
                }
            },
            _ => {},
        }
    }
}

/// An `<enums>` section only ever moves the cursor forward.
pub proof fn lemma_do_enums_advances(
    ev: Seq<EventV>,
    i: int,
    attrs: Seq<char>,
    cs: Seq<ApiConstantV>,
    als: Seq<ApiConstantAliasV>,
    gs: Seq<EnumsGroupV>,
)
    ensures
        spec_do_enums(ev, i, attrs, cs, als, gs) matches Ok(p) ==> i < p.3 <= ev.len(),
{
    match first_val(attrs_of(attrs), "name"@) {
        None => {},
        Some(n) => {
            if n == "API Constants"@ {
                lemma_parse_api_constants_advances(ev, i, cs, als);
            } else {
                match enums_group_from_pairs(attrs_of(attrs)) {
                    Ok(g) => lemma_parse_enums_group_advances(ev, i, g),
                    Err(e) => {},
                }
            }
        },
    }
}


/// An `"API Constants"` section that closes at once adds nothing to either
/// constant list.
pub proof fn lemma_api_constants_empty_section(
    ev: Seq<EventV>,
    i: int,
    cs: Seq<ApiConstantV>,
    als: Seq<ApiConstantAliasV>,
)
    requires
        0 <= i < ev.len(),
        ev[i] == (EventV::End { name: "enums"@ }),
    ensures
        parse_api_constants(ev, i, cs, als) == Ok::<_, ErrV>((cs, als, i + 1)),
{
}

} // verus!
