//! The `<spirvcapabilities>` section.

use vstd::prelude::*;

use crate::attrs::{
    attrs_of, attrs_view, decode_attrs, first_err_by, keys_distinct, last_val,
    lemma_first_err_by_permutation_none, lemma_last_val_permutation, or_empty, opt_view,
    seq_view, Attr, AttrV,
};
use crate::attrs::{
    check_comment_only, classify_by_presence, comment_only_checker, find_attr_value, first_val,
    spec_classify,
};
use crate::errors::{elem_err, end_err, missing_err, res_view, ErrV, ParseError};
use crate::events::{events_view, ev_tag, exec_ev_tag, EventV, XmlEvent};
use crate::utils::{str_eq};

verus! {

/// A SPIR-V capability and what enables it.
#[derive(Debug, Clone, PartialEq, Eq)]
pub struct SpirvCapability {
    pub name: String,
    pub version: Option<String>,
    pub extension: Option<String>,
    pub structs: Vec<SpirvCapabilityStruct>,
    pub properties: Vec<SpirvCapabilityProperty>,
}

/// The mathematical value of a [`SpirvCapability`].
pub ghost struct SpirvCapabilityV {
    pub name: Seq<char>,
    pub version: Option<Seq<char>>,
    pub extension: Option<Seq<char>>,
    pub structs: Seq<SpirvCapabilityStructV>,
    pub properties: Seq<SpirvCapabilityPropertyV>,
}

impl View for SpirvCapability {
    type V = SpirvCapabilityV;

    open spec fn view(&self) -> SpirvCapabilityV {
        SpirvCapabilityV {
            name: self.name@,
            version: opt_view(self.version),
            extension: opt_view(self.extension),
            structs: seq_view(self.structs@),
            properties: seq_view(self.properties@),
        }
    }
}

pub open spec fn spirv_capability_pair_err(p: AttrV) -> Option<ErrV> {
    if p.key == "name"@ {
        None
    } else {
        Some(ErrV::UnexpectedAttribute { key: p.key, record_kind: "SpirvCapability"@ })
    }
}

pub open spec fn spirv_capability_checker() -> spec_fn(AttrV) -> Option<ErrV> {
    |p: AttrV| spirv_capability_pair_err(p)
}

/// The attribute keys (and checked attribute values) of this record kind
/// are pairwise distinct text.
proof fn spirv_capability_key_facts()
    ensures
{
    reveal_strlit("name");
    assert("name"@.len() == 4);
    assert("name"@[0] == 'n');
    assert("name"@[1] == 'a');
    assert("name"@[2] == 'm');
    assert("name"@[3] == 'e');
}

/// The record built from decoded pairs: every key must be mapped, and
/// the mandatory fields must be set.
pub open spec fn spirv_capability_from_pairs(ps: Seq<AttrV>) -> Result<SpirvCapabilityV, ErrV> {
    match first_err_by(ps, spirv_capability_checker()) {
        Some(e) => Err(e),
        None => if or_empty(last_val(ps, "name"@)).len() == 0 {
            Err(missing_err("name"@, "SpirvCapability"@))
        } else {
            Ok(
                SpirvCapabilityV {
                    name: or_empty(last_val(ps, "name"@)),
                    version: None,
                    extension: None,
                    structs: Seq::empty(),
                    properties: Seq::empty(),
                },
            )
        },
    }
}

impl SpirvCapability {
    /// Builds a `SpirvCapability` from decoded attribute pairs.
    #[verifier::loop_isolation(false)]
    pub fn from_pairs(pairs: &Vec<Attr>) -> (r: Result<SpirvCapability, ParseError>)
        ensures
            res_view(r) == spirv_capability_from_pairs(attrs_view(pairs@)),
    {
        let ghost aps = attrs_view(pairs@);
        let ghost f = spirv_capability_checker();
        let mut name: Option<String> = None;
        let mut idx: usize = 0;
        proof {
            assert(aps.skip(0) =~= aps);
            assert(aps.take(0) =~= Seq::<AttrV>::empty());
        }
        while idx < pairs.len()
            invariant
                idx <= pairs@.len(),
                first_err_by(aps, f) == first_err_by(aps.skip(idx as int), f),
                opt_view(name) == last_val(aps.take(idx as int), "name"@),
            decreases pairs@.len() - idx,
        {
            let ghost p = aps[idx as int];
            proof {
                spirv_capability_key_facts();
                assert(p == pairs@[idx as int]@);
                assert(aps.skip(idx as int)[0] == p);
                assert(aps.skip(idx as int).drop_first() =~= aps.skip(idx as int + 1));
                assert(aps.take(idx as int + 1).drop_last() =~= aps.take(idx as int));
                assert(aps.take(idx as int + 1).last() == p);
            }
            let a = &pairs[idx];
            if str_eq(a.key.as_str(), "name") {
                name = Some(a.value.clone());
            } else {
                return Err(ParseError::UnexpectedAttribute {
                    key: a.key.clone(),
                    record_kind: "SpirvCapability".to_owned(),
                });
            }
            idx += 1;
        }
        proof {
            assert(aps.skip(pairs@.len() as int) =~= Seq::<AttrV>::empty());
            assert(aps.take(pairs@.len() as int) =~= aps);
        }
        let name = match name {
            Some(v) => v,
            None => {
                return Err(ParseError::MissingRequiredAttribute {
                    name: "name".to_owned(),
                    record_kind: "SpirvCapability".to_owned(),
                });
            },
        };
        if name.as_str().is_empty() {
            return Err(ParseError::MissingRequiredAttribute {
                name: "name".to_owned(),
                record_kind: "SpirvCapability".to_owned(),
            });
        }
        proof {
            assert(seq_view(Seq::<SpirvCapabilityStruct>::empty()) =~= Seq::<SpirvCapabilityStructV>::empty());
            assert(seq_view(Seq::<SpirvCapabilityProperty>::empty()) =~= Seq::<SpirvCapabilityPropertyV>::empty());
        }
        Ok(SpirvCapability {
            name,
            version: None,
            extension: None,
            structs: Vec::new(),
            properties: Vec::new(),
        })
    }

    /// Builds a `SpirvCapability` from a tag's raw attribute text.
    pub fn from_attrs(attrs: &str) -> (r: Result<SpirvCapability, ParseError>)
        ensures
            res_view(r) == spirv_capability_from_pairs(attrs_of(attrs@)),
    {
        let pairs = decode_attrs(attrs);
        SpirvCapability::from_pairs(&pairs)
    }
}

/// Permuting the tag's attribute pairs never changes the
/// record built, as long as the pair list is valid: keys all distinct and
/// the record accepted.
pub proof fn lemma_spirv_capability_attr_order(ps1: Seq<AttrV>, ps2: Seq<AttrV>)
    requires
        keys_distinct(ps1),
        ps1.to_multiset() == ps2.to_multiset(),
        spirv_capability_from_pairs(ps1) is Ok,
    ensures
        spirv_capability_from_pairs(ps2) == spirv_capability_from_pairs(ps1),
{
    lemma_first_err_by_permutation_none(ps1, ps2, spirv_capability_checker());
    lemma_last_val_permutation(ps1, ps2, "name"@);
}

/// A feature struct that enables a SPIR-V capability.
#[derive(Debug, Clone, PartialEq, Eq)]
pub struct SpirvCapabilityStruct {
    pub name: String,
    pub feature: String,
    pub requires_attr: String,
    pub alias: Option<String>,
}

/// The mathematical value of a [`SpirvCapabilityStruct`].
pub ghost struct SpirvCapabilityStructV {
    pub name: Seq<char>,
    pub feature: Seq<char>,
    pub requires_attr: Seq<char>,
    pub alias: Option<Seq<char>>,
}

impl View for SpirvCapabilityStruct {
    type V = SpirvCapabilityStructV;

    open spec fn view(&self) -> SpirvCapabilityStructV {
        SpirvCapabilityStructV {
            name: self.name@,
            feature: self.feature@,
            requires_attr: self.requires_attr@,
            alias: opt_view(self.alias),
        }
    }
}

pub open spec fn spirv_capability_struct_pair_err(p: AttrV) -> Option<ErrV> {
    if p.key == "struct"@ {
        None
    } else if p.key == "feature"@ {
        None
    } else if p.key == "requires"@ {
        None
    } else if p.key == "alias"@ {
        None
    } else {
        Some(ErrV::UnexpectedAttribute { key: p.key, record_kind: "SpirvCapabilityStruct"@ })
    }
}

pub open spec fn spirv_capability_struct_checker() -> spec_fn(AttrV) -> Option<ErrV> {
    |p: AttrV| spirv_capability_struct_pair_err(p)
}

/// The attribute keys (and checked attribute values) of this record kind
/// are pairwise distinct text.
proof fn spirv_capability_struct_key_facts()
    ensures
        "struct"@ != "feature"@,
        "struct"@ != "requires"@,
        "struct"@ != "alias"@,
        "feature"@ != "requires"@,
        "feature"@ != "alias"@,
        "requires"@ != "alias"@,
{
    reveal_strlit("alias");
    reveal_strlit("feature");
    reveal_strlit("requires");
    reveal_strlit("struct");
    assert("alias"@.len() == 5);
    assert("alias"@[0] == 'a');
    assert("alias"@[1] == 'l');
    assert("alias"@[2] == 'i');
    assert("alias"@[3] == 'a');
    assert("alias"@[4] == 's');
    assert("feature"@.len() == 7);
    assert("feature"@[0] == 'f');
    assert("feature"@[1] == 'e');
    assert("feature"@[2] == 'a');
    assert("feature"@[3] == 't');
    assert("feature"@[4] == 'u');
    assert("feature"@[5] == 'r');
    assert("feature"@[6] == 'e');
    assert("requires"@.len() == 8);
    assert("requires"@[0] == 'r');
    assert("requires"@[1] == 'e');
    assert("requires"@[2] == 'q');
    assert("requires"@[3] == 'u');
    assert("requires"@[4] == 'i');
    assert("requires"@[5] == 'r');
    assert("requires"@[6] == 'e');
    assert("requires"@[7] == 's');
    assert("struct"@.len() == 6);
    assert("struct"@[0] == 's');
    assert("struct"@[1] == 't');
    assert("struct"@[2] == 'r');
    assert("struct"@[3] == 'u');
    assert("struct"@[4] == 'c');
    assert("struct"@[5] == 't');
}

/// The record built from decoded pairs: every key must be mapped, and
/// the mandatory fields must be set.
pub open spec fn spirv_capability_struct_from_pairs(ps: Seq<AttrV>) -> Result<SpirvCapabilityStructV, ErrV> {
    match first_err_by(ps, spirv_capability_struct_checker()) {
        Some(e) => Err(e),
        None => if or_empty(last_val(ps, "struct"@)).len() == 0 {
            Err(missing_err("struct"@, "SpirvCapabilityStruct"@))
        } else {
            Ok(
                SpirvCapabilityStructV {
                    name: or_empty(last_val(ps, "struct"@)),
                    feature: or_empty(last_val(ps, "feature"@)),
                    requires_attr: or_empty(last_val(ps, "requires"@)),
                    alias: last_val(ps, "alias"@),
                },
            )
        },
    }
}

impl SpirvCapabilityStruct {
    /// Builds a `SpirvCapabilityStruct` from decoded attribute pairs.
    #[verifier::loop_isolation(false)]
    pub fn from_pairs(pairs: &Vec<Attr>) -> (r: Result<SpirvCapabilityStruct, ParseError>)
        ensures
            res_view(r) == spirv_capability_struct_from_pairs(attrs_view(pairs@)),
    {
        let ghost aps = attrs_view(pairs@);
        let ghost f = spirv_capability_struct_checker();
        let mut name: Option<String> = None;
        let mut feature: String = String::new();
        let mut requires_attr: String = String::new();
        let mut alias: Option<String> = None;
        let mut idx: usize = 0;
        proof {
            assert(aps.skip(0) =~= aps);
            assert(aps.take(0) =~= Seq::<AttrV>::empty());
        }
        while idx < pairs.len()
            invariant
                idx <= pairs@.len(),
                first_err_by(aps, f) == first_err_by(aps.skip(idx as int), f),
                opt_view(name) == last_val(aps.take(idx as int), "struct"@),
                feature@ == or_empty(last_val(aps.take(idx as int), "feature"@)),
                requires_attr@ == or_empty(last_val(aps.take(idx as int), "requires"@)),
                opt_view(alias) == last_val(aps.take(idx as int), "alias"@),
            decreases pairs@.len() - idx,
        {
            let ghost p = aps[idx as int];
            proof {
                spirv_capability_struct_key_facts();
                assert(p == pairs@[idx as int]@);
                assert(aps.skip(idx as int)[0] == p);
                assert(aps.skip(idx as int).drop_first() =~= aps.skip(idx as int + 1));
                assert(aps.take(idx as int + 1).drop_last() =~= aps.take(idx as int));
                assert(aps.take(idx as int + 1).last() == p);
            }
            let a = &pairs[idx];
            if str_eq(a.key.as_str(), "struct") {
                name = Some(a.value.clone());
            } else if str_eq(a.key.as_str(), "feature") {
                feature = a.value.clone();
            } else if str_eq(a.key.as_str(), "requires") {
                requires_attr = a.value.clone();
            } else if str_eq(a.key.as_str(), "alias") {
                alias = Some(a.value.clone());
            } else {
                return Err(ParseError::UnexpectedAttribute {
                    key: a.key.clone(),
                    record_kind: "SpirvCapabilityStruct".to_owned(),
                });
            }
            idx += 1;
        }
        proof {
            assert(aps.skip(pairs@.len() as int) =~= Seq::<AttrV>::empty());
            assert(aps.take(pairs@.len() as int) =~= aps);
        }
        let name = match name {
            Some(v) => v,
            None => {
                return Err(ParseError::MissingRequiredAttribute {
                    name: "struct".to_owned(),
                    record_kind: "SpirvCapabilityStruct".to_owned(),
                });
            },
        };
        if name.as_str().is_empty() {
            return Err(ParseError::MissingRequiredAttribute {
                name: "struct".to_owned(),
                record_kind: "SpirvCapabilityStruct".to_owned(),
            });
        }
        Ok(SpirvCapabilityStruct {
            name,
            feature,
            requires_attr,
            alias,
        })
    }

    /// Builds a `SpirvCapabilityStruct` from a tag's raw attribute text.
    pub fn from_attrs(attrs: &str) -> (r: Result<SpirvCapabilityStruct, ParseError>)
        ensures
            res_view(r) == spirv_capability_struct_from_pairs(attrs_of(attrs@)),
    {
        let pairs = decode_attrs(attrs);
        SpirvCapabilityStruct::from_pairs(&pairs)
    }
}

/// Permuting the tag's attribute pairs never changes the
/// record built, as long as the pair list is valid: keys all distinct and
/// the record accepted.
pub proof fn lemma_spirv_capability_struct_attr_order(ps1: Seq<AttrV>, ps2: Seq<AttrV>)
    requires
        keys_distinct(ps1),
        ps1.to_multiset() == ps2.to_multiset(),
        spirv_capability_struct_from_pairs(ps1) is Ok,
    ensures
        spirv_capability_struct_from_pairs(ps2) == spirv_capability_struct_from_pairs(ps1),
{
    lemma_first_err_by_permutation_none(ps1, ps2, spirv_capability_struct_checker());
    lemma_last_val_permutation(ps1, ps2, "struct"@);
    lemma_last_val_permutation(ps1, ps2, "feature"@);
    lemma_last_val_permutation(ps1, ps2, "requires"@);
    lemma_last_val_permutation(ps1, ps2, "alias"@);
}

/// A property value that enables a SPIR-V capability.
#[derive(Debug, Clone, PartialEq, Eq)]
pub struct SpirvCapabilityProperty {
    pub name: String,
    pub member: String,
    pub value: String,
    pub requires_attr: String,
}

/// The mathematical value of a [`SpirvCapabilityProperty`].
pub ghost struct SpirvCapabilityPropertyV {
    pub name: Seq<char>,
    pub member: Seq<char>,
    pub value: Seq<char>,
    pub requires_attr: Seq<char>,
}

impl View for SpirvCapabilityProperty {
    type V = SpirvCapabilityPropertyV;

    open spec fn view(&self) -> SpirvCapabilityPropertyV {
        SpirvCapabilityPropertyV {
            name: self.name@,
            member: self.member@,
            value: self.value@,
            requires_attr: self.requires_attr@,
        }
    }
}

pub open spec fn spirv_capability_property_pair_err(p: AttrV) -> Option<ErrV> {
    if p.key == "property"@ {
        None
    } else if p.key == "member"@ {
        None
    } else if p.key == "value"@ {
        None
    } else if p.key == "requires"@ {
        None
    } else {
        Some(ErrV::UnexpectedAttribute { key: p.key, record_kind: "SpirvCapabilityProperty"@ })
    }
}

pub open spec fn spirv_capability_property_checker() -> spec_fn(AttrV) -> Option<ErrV> {
    |p: AttrV| spirv_capability_property_pair_err(p)
}

/// The attribute keys (and checked attribute values) of this record kind
/// are pairwise distinct text.
proof fn spirv_capability_property_key_facts()
    ensures
        "property"@ != "member"@,
        "property"@ != "value"@,
        "property"@ != "requires"@,
        "member"@ != "value"@,
        "member"@ != "requires"@,
        "value"@ != "requires"@,
{
    reveal_strlit("member");
    reveal_strlit("property");
    reveal_strlit("requires");
    reveal_strlit("value");
    assert("member"@.len() == 6);
    assert("member"@[0] == 'm');
    assert("member"@[1] == 'e');
    assert("member"@[2] == 'm');
    assert("member"@[3] == 'b');
    assert("member"@[4] == 'e');
    assert("member"@[5] == 'r');
    assert("property"@.len() == 8);
    assert("property"@[0] == 'p');
    assert("property"@[1] == 'r');
    assert("property"@[2] == 'o');
    assert("property"@[3] == 'p');
    assert("property"@[4] == 'e');
    assert("property"@[5] == 'r');
    assert("property"@[6] == 't');
    assert("property"@[7] == 'y');
    assert("requires"@.len() == 8);
    assert("requires"@[0] == 'r');
    assert("requires"@[1] == 'e');
    assert("requires"@[2] == 'q');
    assert("requires"@[3] == 'u');
    assert("requires"@[4] == 'i');
    assert("requires"@[5] == 'r');
    assert("requires"@[6] == 'e');
    assert("requires"@[7] == 's');
    assert("value"@.len() == 5);
    assert("value"@[0] == 'v');
    assert("value"@[1] == 'a');
    assert("value"@[2] == 'l');
    assert("value"@[3] == 'u');
    assert("value"@[4] == 'e');
}

/// The record built from decoded pairs: every key must be mapped, and
/// the mandatory fields must be set.
pub open spec fn spirv_capability_property_from_pairs(ps: Seq<AttrV>) -> Result<SpirvCapabilityPropertyV, ErrV> {
    match first_err_by(ps, spirv_capability_property_checker()) {
        Some(e) => Err(e),
        None => if or_empty(last_val(ps, "property"@)).len() == 0 {
            Err(missing_err("property"@, "SpirvCapabilityProperty"@))
        } else {
            Ok(
                SpirvCapabilityPropertyV {
                    name: or_empty(last_val(ps, "property"@)),
                    member: or_empty(last_val(ps, "member"@)),
                    value: or_empty(last_val(ps, "value"@)),
                    requires_attr: or_empty(last_val(ps, "requires"@)),
                },
            )
        },
    }
}

impl SpirvCapabilityProperty {
    /// Builds a `SpirvCapabilityProperty` from decoded attribute pairs.
    #[verifier::loop_isolation(false)]
    pub fn from_pairs(pairs: &Vec<Attr>) -> (r: Result<SpirvCapabilityProperty, ParseError>)
        ensures
            res_view(r) == spirv_capability_property_from_pairs(attrs_view(pairs@)),
    {
        let ghost aps = attrs_view(pairs@);
        let ghost f = spirv_capability_property_checker();
        let mut name: Option<String> = None;
        let mut member: String = String::new();
        let mut value: String = String::new();
        let mut requires_attr: String = String::new();
        let mut idx: usize = 0;
        proof {
            assert(aps.skip(0) =~= aps);
            assert(aps.take(0) =~= Seq::<AttrV>::empty());
        }
        while idx < pairs.len()
            invariant
                idx <= pairs@.len(),
                first_err_by(aps, f) == first_err_by(aps.skip(idx as int), f),
                opt_view(name) == last_val(aps.take(idx as int), "property"@),
                member@ == or_empty(last_val(aps.take(idx as int), "member"@)),
                value@ == or_empty(last_val(aps.take(idx as int), "value"@)),
                requires_attr@ == or_empty(last_val(aps.take(idx as int), "requires"@)),
            decreases pairs@.len() - idx,
        {
            let ghost p = aps[idx as int];
            proof {
                spirv_capability_property_key_facts();
                assert(p == pairs@[idx as int]@);
                assert(aps.skip(idx as int)[0] == p);
                assert(aps.skip(idx as int).drop_first() =~= aps.skip(idx as int + 1));
                assert(aps.take(idx as int + 1).drop_last() =~= aps.take(idx as int));
                assert(aps.take(idx as int + 1).last() == p);
            }
            let a = &pairs[idx];
            if str_eq(a.key.as_str(), "property") {
                name = Some(a.value.clone());
            } else if str_eq(a.key.as_str(), "member") {
                member = a.value.clone();
            } else if str_eq(a.key.as_str(), "value") {
                value = a.value.clone();
            } else if str_eq(a.key.as_str(), "requires") {
                requires_attr = a.value.clone();
            } else {
                return Err(ParseError::UnexpectedAttribute {
                    key: a.key.clone(),
                    record_kind: "SpirvCapabilityProperty".to_owned(),
                });
            }
            idx += 1;
        }
        proof {
            assert(aps.skip(pairs@.len() as int) =~= Seq::<AttrV>::empty());
            assert(aps.take(pairs@.len() as int) =~= aps);
        }
        let name = match name {
            Some(v) => v,
            None => {
                return Err(ParseError::MissingRequiredAttribute {
                    name: "property".to_owned(),
                    record_kind: "SpirvCapabilityProperty".to_owned(),
                });
            },
        };
        if name.as_str().is_empty() {
            return Err(ParseError::MissingRequiredAttribute {
                name: "property".to_owned(),
                record_kind: "SpirvCapabilityProperty".to_owned(),
            });
        }
        Ok(SpirvCapabilityProperty {
            name,
            member,
            value,
            requires_attr,
        })
    }

    /// Builds a `SpirvCapabilityProperty` from a tag's raw attribute text.
    pub fn from_attrs(attrs: &str) -> (r: Result<SpirvCapabilityProperty, ParseError>)
        ensures
            res_view(r) == spirv_capability_property_from_pairs(attrs_of(attrs@)),
    {
        let pairs = decode_attrs(attrs);
        SpirvCapabilityProperty::from_pairs(&pairs)
    }
}

/// Permuting the tag's attribute pairs never changes the
/// record built, as long as the pair list is valid: keys all distinct and
/// the record accepted.
pub proof fn lemma_spirv_capability_property_attr_order(ps1: Seq<AttrV>, ps2: Seq<AttrV>)
    requires
        keys_distinct(ps1),
        ps1.to_multiset() == ps2.to_multiset(),
        spirv_capability_property_from_pairs(ps1) is Ok,
    ensures
        spirv_capability_property_from_pairs(ps2) == spirv_capability_property_from_pairs(ps1),
{
    lemma_first_err_by_permutation_none(ps1, ps2, spirv_capability_property_checker());
    lemma_last_val_permutation(ps1, ps2, "property"@);
    lemma_last_val_permutation(ps1, ps2, "member"@);
    lemma_last_val_permutation(ps1, ps2, "value"@);
    lemma_last_val_permutation(ps1, ps2, "requires"@);
}

/// The priority-ordered keys that classify an `<enable/>` tag inside a
/// SPIR-V capability: `version`, then `struct`, then `property`, then
/// `extension`.
pub open spec fn capability_enable_keys() -> Seq<Seq<char>> {
    seq!["version"@, "struct"@, "property"@, "extension"@]
}

/// One `<enable/>` tag inside a SPIR-V capability, classified by the
/// fixed-priority presence scan.
pub open spec fn spec_capability_enable(c: SpirvCapabilityV, attrs: Seq<char>) -> Result<
    SpirvCapabilityV,
    ErrV,
> {
    let aps = attrs_of(attrs);
    match spec_classify(aps, capability_enable_keys()) {
        Some(k) => if k == 0 {
            Ok(SpirvCapabilityV { version: first_val(aps, "version"@), ..c })
        } else if k == 1 {
            match spirv_capability_struct_from_pairs(aps) {
                Ok(v) => Ok(SpirvCapabilityV { structs: c.structs.push(v), ..c }),
                Err(e) => Err(e),
            }
        } else if k == 2 {
            match spirv_capability_property_from_pairs(aps) {
                Ok(v) => Ok(SpirvCapabilityV { properties: c.properties.push(v), ..c }),
                Err(e) => Err(e),
            }
        } else {
            Ok(SpirvCapabilityV { extension: first_val(aps, "extension"@), ..c })
        },
        None => Err(ErrV::UnexpectedAttribute { key: Seq::empty(), record_kind: "SpirvCapability"@ }),
    }
}

/// Applies one `<enable/>` tag to the SPIR-V capability being built.
fn do_capability_enable(c: &mut SpirvCapability, attrs: &str) -> (r: Result<(), ParseError>)
    ensures
        match r {
            Ok(()) => spec_capability_enable(old(c)@, attrs@) == Ok::<SpirvCapabilityV, ErrV>(
                final(c)@,
            ),
            Err(e) => spec_capability_enable(old(c)@, attrs@) == Err::<SpirvCapabilityV, ErrV>(e@),
        },
{
    let pairs = decode_attrs(attrs);
    let keys: Vec<&str> = vec!["version", "struct", "property", "extension"];
    proof {
        assert(seq_view(keys@) =~= capability_enable_keys());
    }
    match classify_by_presence(&pairs, &keys) {
        Some(k) => {
            if k == 0 {
                c.version = find_attr_value(&pairs, "version");
                Ok(())
            } else if k == 1 {
                match SpirvCapabilityStruct::from_pairs(&pairs) {
                    Ok(v) => {
                        proof {
                            assert(seq_view(c.structs@.push(v)) =~= seq_view(c.structs@).push(v@));
                        }
                        c.structs.push(v);
                        Ok(())
                    },
                    Err(e) => Err(e),
                }
            } else if k == 2 {
                match SpirvCapabilityProperty::from_pairs(&pairs) {
                    Ok(v) => {
                        proof {
                            assert(seq_view(c.properties@.push(v)) =~= seq_view(
                                c.properties@,
                            ).push(v@));
                        }
                        c.properties.push(v);
                        Ok(())
                    },
                    Err(e) => Err(e),
                }
            } else {
                c.extension = find_attr_value(&pairs, "extension");
                Ok(())
            }
        },
        None => Err(ParseError::UnexpectedAttribute {
            key: String::new(),
            record_kind: "SpirvCapability".to_owned(),
        }),
    }
}

/// The body of one `<spirvcapability>` element: `<enable/>` tags through
/// the closing tag.
pub open spec fn parse_spirv_capability_body(
    ev: Seq<EventV>,
    i: int,
    c: SpirvCapabilityV,
) -> Result<(SpirvCapabilityV, int), ErrV>
    decreases ev.len() - i,
{
    if i < 0 || i >= ev.len() {
        Err(end_err("spirvcapability"@))
    } else {
        match ev[i] {
            EventV::End { name } => if name == "spirvcapability"@ {
                Ok((c, i + 1))
            } else {
                Err(elem_err(name, "spirvcapability"@))
            },
            EventV::Empty { name, attrs } => if name == "enable"@ {
                match spec_capability_enable(c, attrs) {
                    Ok(c2) => parse_spirv_capability_body(ev, i + 1, c2),
                    Err(e) => Err(e),
                }
            } else {
                Err(elem_err(name, "spirvcapability"@))
            },
            e => Err(elem_err(ev_tag(e), "spirvcapability"@)),
        }
    }
}

/// A SPIR-V capability body only ever moves the cursor forward.
pub proof fn lemma_parse_spirv_capability_body_advances(
    ev: Seq<EventV>,
    i: int,
    c: SpirvCapabilityV,
)
    ensures
        parse_spirv_capability_body(ev, i, c) matches Ok(p) ==> i < p.1 <= ev.len(),
    decreases ev.len() - i,
{
    if 0 <= i < ev.len() {
        match ev[i] {
            EventV::Empty { name, attrs } => {
                if name == "enable"@ {
                    match spec_capability_enable(c, attrs) {
                        Ok(c2) => lemma_parse_spirv_capability_body_advances(ev, i + 1, c2),
                        Err(e) => {},
                    }
                }
            },
            _ => {},
        }
    }
}

/// Consumes the body of one `<spirvcapability>` element into `c`.
#[verifier::loop_isolation(false)]
fn do_spirv_capability_body(c: &mut SpirvCapability, events: &Vec<XmlEvent>, pos: usize) -> (r:
    Result<usize, ParseError>)
    ensures
        match r {
            Ok(j) => parse_spirv_capability_body(events_view(events@), pos as int, old(c)@) == Ok::<
                _,
                ErrV,
            >((final(c)@, j as int)),
            Err(e) => parse_spirv_capability_body(events_view(events@), pos as int, old(c)@)
                == Err::<(SpirvCapabilityV, int), ErrV>(e@),
        },
{
    let ghost ev = events_view(events@);
    let ghost c0 = old(c)@;
    let mut cur = pos;
    loop
        invariant
            pos <= cur,
            parse_spirv_capability_body(ev, cur as int, c@) == parse_spirv_capability_body(
                ev,
                pos as int,
                c0,
            ),
        decreases ev.len() - cur,
    {
        if cur >= events.len() {
            return Err(ParseError::UnexpectedElement {
                tag: String::new(),
                context: "spirvcapability".to_owned(),
            });
        }
        proof {
            assert(ev[cur as int] == events@[cur as int]@);
        }
        match &events[cur] {
            XmlEvent::End { name: n } => {
                if str_eq(n.as_str(), "spirvcapability") {
                    return Ok(cur + 1);
                } else {
                    return Err(ParseError::UnexpectedElement {
                        tag: n.clone(),
                        context: "spirvcapability".to_owned(),
                    });
                }
            },
            XmlEvent::Empty { name: n, attrs: a } => {
                if str_eq(n.as_str(), "enable") {
                    match do_capability_enable(c, a.as_str()) {
                        Ok(()) => {},
                        Err(e) => {
                            return Err(e);
                        },
                    }
                } else {
                    return Err(ParseError::UnexpectedElement {
                        tag: n.clone(),
                        context: "spirvcapability".to_owned(),
                    });
                }
            },
            e => {
                return Err(ParseError::UnexpectedElement {
                    tag: exec_ev_tag(e),
                    context: "spirvcapability".to_owned(),
                });
            },
        }
        cur += 1;
    }
}

/// The body of the `<spirvcapabilities>` section.
pub open spec fn parse_spirv_capabilities(
    ev: Seq<EventV>,
    i: int,
    cs: Seq<SpirvCapabilityV>,
) -> Result<(Seq<SpirvCapabilityV>, int), ErrV>
    decreases ev.len() - i,
    via parse_spirv_capabilities_dec
{
    if i < 0 || i >= ev.len() {
        Err(end_err("spirvcapabilities"@))
    } else {
        match ev[i] {
            EventV::End { name } => if name == "spirvcapabilities"@ {
                Ok((cs, i + 1))
            } else {
                Err(elem_err(name, "spirvcapabilities"@))
            },
            EventV::Start { name, attrs } => if name == "spirvcapability"@ {
                match spirv_capability_from_pairs(attrs_of(attrs)) {
                    Ok(c) => match parse_spirv_capability_body(ev, i + 1, c) {
                        Ok((c2, j)) => parse_spirv_capabilities(ev, j, cs.push(c2)),
                        Err(e) => Err(e),
                    },
                    Err(e) => Err(e),
                }
            } else {
                Err(elem_err(name, "spirvcapabilities"@))
            },
            e => Err(elem_err(ev_tag(e), "spirvcapabilities"@)),
        }
    }
}

#[via_fn]
proof fn parse_spirv_capabilities_dec(ev: Seq<EventV>, i: int, cs: Seq<SpirvCapabilityV>) {
    if 0 <= i < ev.len() {
        match ev[i] {
            EventV::Start { name, attrs } => {
                if name == "spirvcapability"@ {
                    match spirv_capability_from_pairs(attrs_of(attrs)) {
                        Ok(c) => lemma_parse_spirv_capability_body_advances(ev, i + 1, c),
                        Err(e) => {},
                    }
                }
            },
            _ => {},
        }
    }
}

/// A `<spirvcapabilities>` section whose opening tag carries `attrs`.
pub open spec fn spec_do_spirvcapabilities(
    ev: Seq<EventV>,
    i: int,
    attrs: Seq<char>,
    cs: Seq<SpirvCapabilityV>,
) -> Result<(Seq<SpirvCapabilityV>, int), ErrV> {
    match first_err_by(attrs_of(attrs), comment_only_checker("spirvcapabilities"@)) {
        Some(e) => Err(e),
        None => parse_spirv_capabilities(ev, i, cs),
    }
}

/// Consumes a `<spirvcapabilities>` section, appending each capability in
/// document order.
#[verifier::loop_isolation(false)]
pub fn do_spirvcapabilities(
    spirv_capabilities: &mut Vec<SpirvCapability>,
    attrs: &str,
    events: &Vec<XmlEvent>,
    pos: usize,
) -> (r: Result<usize, ParseError>)
    ensures
        match r {
            Ok(j) => spec_do_spirvcapabilities(
                events_view(events@),
                pos as int,
                attrs@,
                seq_view(old(spirv_capabilities)@),
            ) == Ok::<_, ErrV>((seq_view(final(spirv_capabilities)@), j as int)),
            Err(e) => spec_do_spirvcapabilities(
                events_view(events@),
                pos as int,
                attrs@,
                seq_view(old(spirv_capabilities)@),
            ) == Err::<(Seq<SpirvCapabilityV>, int), ErrV>(e@),
        },
{
    if let Some(e) = check_comment_only(attrs, "spirvcapabilities") {
        return Err(e);
    }
    let ghost ev = events_view(events@);
    let ghost cs0 = seq_view(old(spirv_capabilities)@);
    let mut cur = pos;
    loop
        invariant
            pos <= cur,
            parse_spirv_capabilities(ev, cur as int, seq_view(spirv_capabilities@))
                == parse_spirv_capabilities(ev, pos as int, cs0),
        decreases ev.len() - cur,
    {
        if cur >= events.len() {
            return Err(ParseError::UnexpectedElement {
                tag: String::new(),
                context: "spirvcapabilities".to_owned(),
            });
        }
        proof {
            assert(ev[cur as int] == events@[cur as int]@);
        }
        match &events[cur] {
            XmlEvent::End { name: n } => {
                if str_eq(n.as_str(), "spirvcapabilities") {
                    return Ok(cur + 1);
                } else {
                    return Err(ParseError::UnexpectedElement {
                        tag: n.clone(),
                        context: "spirvcapabilities".to_owned(),
                    });
                }
            },
            XmlEvent::Start { name: n, attrs: a } => {
                if str_eq(n.as_str(), "spirvcapability") {
                    let mut c = match SpirvCapability::from_attrs(a.as_str()) {
                        Ok(c) => c,
                        Err(e) => {
                            return Err(e);
                        },
                    };
                    let ghost cv0 = c@;
                    match do_spirv_capability_body(&mut c, events, cur + 1) {
                        Ok(j) => {
                            proof {
                                lemma_parse_spirv_capability_body_advances(ev, cur as int + 1, cv0);
                                assert(seq_view(spirv_capabilities@.push(c)) =~= seq_view(
                                    spirv_capabilities@,
                                ).push(c@));
                            }
                            spirv_capabilities.push(c);
                            cur = j;
                            continue ;
                        },
                        Err(e) => {
                            return Err(e);
                        },
                    }
                } else {
                    return Err(ParseError::UnexpectedElement {
                        tag: n.clone(),
                        context: "spirvcapabilities".to_owned(),
                    });
                }
            },
            e => {
                return Err(ParseError::UnexpectedElement {
                    tag: exec_ev_tag(e),
                    context: "spirvcapabilities".to_owned(),
                });
            },
        }
        cur += 1;
    }
}

/// A `<spirvcapabilities>` body only ever moves the cursor forward.
pub proof fn lemma_parse_spirv_capabilities_advances(
    ev: Seq<EventV>,
    i: int,
    cs: Seq<SpirvCapabilityV>,
)
    ensures
        parse_spirv_capabilities(ev, i, cs) matches Ok(p) ==> i < p.1 <= ev.len(),
    decreases ev.len() - i,
{
    if 0 <= i < ev.len() {
        match ev[i] {
            EventV::Start { name, attrs } => {
                if name == "spirvcapability"@ {
                    match spirv_capability_from_pairs(attrs_of(attrs)) {
                        Ok(c) => {
                            lemma_parse_spirv_capability_body_advances(ev, i + 1, c);
                            match parse_spirv_capability_body(ev, i + 1, c) {
                                Ok((c2, j)) => lemma_parse_spirv_capabilities_advances(
                                    ev,
                                    j,
                                    cs.push(c2),
                                ),
                                Err(e) => {},
                            }
                        },
                        Err(e) => {},
                    }
                }
            },
            _ => {},
        }
    }
}

/// A `<spirvcapabilities>` section that closes at once adds nothing.
pub proof fn lemma_spirv_capabilities_empty_section(
    ev: Seq<EventV>,
    i: int,
    cs: Seq<SpirvCapabilityV>,
)
    requires
        0 <= i < ev.len(),
        ev[i] == (EventV::End { name: "spirvcapabilities"@ }),
    ensures
        parse_spirv_capabilities(ev, i, cs) == Ok::<_, ErrV>((cs, i + 1)),
{
}

} // verus!
