//! The `<types>` section: every declared type, as a tagged union of
//! category-specific records.

use vstd::prelude::*;

use crate::attrs::{
    attrs_of, attrs_view, decode_attrs, first_err_by, found, has_pair, keys_distinct, last_val,
    lemma_first_err_by_permutation_none, lemma_has_pair_permutation,
    lemma_last_val_permutation, or_empty, opt_view, seq_view, Attr, AttrV,
};
use crate::errors::{malformed_err, missing_err, res_view, ErrV, ParseError};
use crate::errors::{elem_err, end_err, shape_err};
use crate::events::{
    eat_to_end_of_comment, events_view, ev_tag, exec_ev_tag, expect_bare_start, expect_end,
    expect_text, expect_text_element, lemma_skip_comment_advances, skip_comment,
    spec_expect_bare_start, spec_expect_end, spec_expect_text, spec_expect_text_element,
    EventV, XmlEvent,
};
use crate::attrs::{find_attr_value, first_val, has_attr_key};
use crate::utils::{
    contains_seq, crlf_to_lf, normalize_newlines, starts_with_paren, str_contains,
    str_contains_char, str_eq, unescaped,
};
use crate::utils::{cleanup_declaration_text, collapse_declaration_text, revert_xml_encoding};

verus! {

/// The canonical pointer/array/bitfield classification of a declared type.
///
/// Exactly one variant per member or parameter; inferred from the loose text
/// tokens around the `<type>` and `<name>` sub-elements, never attributed.
#[derive(Debug, Clone, PartialEq, Eq)]
pub enum TypeVariant {
    /// `T`
    Normal,
    /// `*const T`
    ConstPtr,
    /// `*mut T`
    MutPtr,
    /// `[T; CONST_NAME]`
    ArraySym(String),
    /// `[T; n]`
    ArrayInt(usize),
    /// `[[T; n]; m]`
    ArrayArrayInt(usize, usize),
    /// `*const *const T`
    ConstPtrConstPtr,
    /// `*mut *mut T`
    MutPtrMutPtr,
    /// `*const [T; n]`
    ConstPtrArrayInt(usize),
}

/// The mathematical value of a [`TypeVariant`].
pub ghost enum TypeVariantV {
    Normal,
    ConstPtr,
    MutPtr,
    ArraySym(Seq<char>),
    ArrayInt(int),
    ArrayArrayInt(int, int),
    ConstPtrConstPtr,
    MutPtrMutPtr,
    ConstPtrArrayInt(int),
}

impl View for TypeVariant {
    type V = TypeVariantV;

    open spec fn view(&self) -> TypeVariantV {
        match self {
            TypeVariant::Normal => TypeVariantV::Normal,
            TypeVariant::ConstPtr => TypeVariantV::ConstPtr,
            TypeVariant::MutPtr => TypeVariantV::MutPtr,
            TypeVariant::ArraySym(n) => TypeVariantV::ArraySym(n@),
            TypeVariant::ArrayInt(n) => TypeVariantV::ArrayInt(*n as int),
            TypeVariant::ArrayArrayInt(n, m) => TypeVariantV::ArrayArrayInt(*n as int, *m as int),
            TypeVariant::ConstPtrConstPtr => TypeVariantV::ConstPtrConstPtr,
            TypeVariant::MutPtrMutPtr => TypeVariantV::MutPtrMutPtr,
            TypeVariant::ConstPtrArrayInt(n) => TypeVariantV::ConstPtrArrayInt(*n as int),
        }
    }
}

/// An `#include` style type entry.
#[derive(Debug, Clone, PartialEq, Eq)]
pub struct Include {
    pub name: String,
    pub text: Option<String>,
}

/// The mathematical value of a [`Include`].
pub ghost struct IncludeV {
    pub name: Seq<char>,
    pub text: Option<Seq<char>>,
}

impl View for Include {
    type V = IncludeV;

    open spec fn view(&self) -> IncludeV {
        IncludeV {
            name: self.name@,
            text: opt_view(self.text),
        }
    }
}

pub open spec fn include_pair_err(p: AttrV) -> Option<ErrV> {
    if p.key == "category"@ {
        if p.value == "include"@ {
                None
            } else {
                Some(malformed_err("category"@, p.value))
            }
    } else if p.key == "name"@ {
        None
    } else {
        Some(ErrV::UnexpectedAttribute { key: p.key, record_kind: "Include"@ })
    }
}

pub open spec fn include_checker() -> spec_fn(AttrV) -> Option<ErrV> {
    |p: AttrV| include_pair_err(p)
}

/// The attribute keys (and checked attribute values) of this record kind
/// are pairwise distinct text.
proof fn include_key_facts()
    ensures
        "category"@ != "name"@,
{
    reveal_strlit("category");
    reveal_strlit("include");
    reveal_strlit("name");
    assert("category"@.len() == 8);
    assert("category"@[0] == 'c');
    assert("category"@[1] == 'a');
    assert("category"@[2] == 't');
    assert("category"@[3] == 'e');
    assert("category"@[4] == 'g');
    assert("category"@[5] == 'o');
    assert("category"@[6] == 'r');
    assert("category"@[7] == 'y');
    assert("include"@.len() == 7);
    assert("include"@[0] == 'i');
    assert("include"@[1] == 'n');
    assert("include"@[2] == 'c');
    assert("include"@[3] == 'l');
    assert("include"@[4] == 'u');
    assert("include"@[5] == 'd');
    assert("include"@[6] == 'e');
    assert("name"@.len() == 4);
    assert("name"@[0] == 'n');
    assert("name"@[1] == 'a');
    assert("name"@[2] == 'm');
    assert("name"@[3] == 'e');
}

/// The record built from decoded pairs: every key must be mapped, and
/// the mandatory fields must be set.
pub open spec fn include_from_pairs(ps: Seq<AttrV>) -> Result<IncludeV, ErrV> {
    match first_err_by(ps, include_checker()) {
        Some(e) => Err(e),
        None => if or_empty(last_val(ps, "name"@)).len() == 0 {
            Err(missing_err("name"@, "Include"@))
        } else {
            Ok(
                IncludeV {
                    name: or_empty(last_val(ps, "name"@)),
                    text: None,
                },
            )
        },
    }
}

impl Include {
    /// Builds an `Include` from decoded attribute pairs.
    #[verifier::loop_isolation(false)]
    pub fn from_pairs(pairs: &Vec<Attr>) -> (r: Result<Include, ParseError>)
        ensures
            res_view(r) == include_from_pairs(attrs_view(pairs@)),
    {
        let ghost aps = attrs_view(pairs@);
        let ghost f = include_checker();
        let mut name: Option<String> = None;
        let mut idx: usize = 0;
        proof {
            assert(aps.skip(0) =~= aps);
            assert(aps.take(0) =~= Seq::<AttrV>::empty());
        }
        while idx < pairs.len()
            invariant
                idx <= pairs@.len(),
                first_err_by(aps, f) == first_err_by(aps.skip(idx as int), f),
                opt_view(name) == last_val(aps.take(idx as int), "name"@),
            decreases pairs@.len() - idx,
        {
            let ghost p = aps[idx as int];
            proof {
                include_key_facts();
                assert(p == pairs@[idx as int]@);
                assert(aps.skip(idx as int)[0] == p);
                assert(aps.skip(idx as int).drop_first() =~= aps.skip(idx as int + 1));
                assert(aps.take(idx as int + 1).drop_last() =~= aps.take(idx as int));
                assert(aps.take(idx as int + 1).last() == p);
            }
            let a = &pairs[idx];
            if str_eq(a.key.as_str(), "category") {
                if !str_eq(a.value.as_str(), "include") {
                    return Err(ParseError::MalformedAttributeValue {
                        key: a.key.clone(),
                        raw_value: a.value.clone(),
                    });
                }
            } else if str_eq(a.key.as_str(), "name") {
                name = Some(a.value.clone());
            } else {
                return Err(ParseError::UnexpectedAttribute {
                    key: a.key.clone(),
                    record_kind: "Include".to_owned(),
                });
            }
            idx += 1;
        }
        proof {
            assert(aps.skip(pairs@.len() as int) =~= Seq::<AttrV>::empty());
            assert(aps.take(pairs@.len() as int) =~= aps);
        }
        let name = match name {
            Some(v) => v,
            None => {
                return Err(ParseError::MissingRequiredAttribute {
                    name: "name".to_owned(),
                    record_kind: "Include".to_owned(),
                });
            },
        };
        if name.as_str().is_empty() {
            return Err(ParseError::MissingRequiredAttribute {
                name: "name".to_owned(),
                record_kind: "Include".to_owned(),
            });
        }
        Ok(Include {
            name,
            text: None,
        })
    }

    /// Builds an `Include` from a tag's raw attribute text.
    pub fn from_attrs(attrs: &str) -> (r: Result<Include, ParseError>)
        ensures
            res_view(r) == include_from_pairs(attrs_of(attrs@)),
    {
        let pairs = decode_attrs(attrs);
        Include::from_pairs(&pairs)
    }
}

/// Permuting the tag's attribute pairs never changes the
/// record built, as long as the pair list is valid: keys all distinct and
/// the record accepted.
pub proof fn lemma_include_attr_order(ps1: Seq<AttrV>, ps2: Seq<AttrV>)
    requires
        keys_distinct(ps1),
        ps1.to_multiset() == ps2.to_multiset(),
        include_from_pairs(ps1) is Ok,
    ensures
        include_from_pairs(ps2) == include_from_pairs(ps1),
{
    lemma_first_err_by_permutation_none(ps1, ps2, include_checker());
    lemma_last_val_permutation(ps1, ps2, "category"@);
    lemma_last_val_permutation(ps1, ps2, "name"@);
}

/// A type declared outside the registry, with the header that declares it.
#[derive(Debug, Clone, PartialEq, Eq)]
pub struct ExternType {
    pub name: String,
    pub requires_header: String,
}

/// The mathematical value of a [`ExternType`].
pub ghost struct ExternTypeV {
    pub name: Seq<char>,
    pub requires_header: Seq<char>,
}

impl View for ExternType {
    type V = ExternTypeV;

    open spec fn view(&self) -> ExternTypeV {
        ExternTypeV {
            name: self.name@,
            requires_header: self.requires_header@,
        }
    }
}

pub open spec fn extern_type_pair_err(p: AttrV) -> Option<ErrV> {
    if p.key == "name"@ {
        None
    } else if p.key == "requires"@ {
        None
    } else {
        Some(ErrV::UnexpectedAttribute { key: p.key, record_kind: "ExternType"@ })
    }
}

pub open spec fn extern_type_checker() -> spec_fn(AttrV) -> Option<ErrV> {
    |p: AttrV| extern_type_pair_err(p)
}

/// The attribute keys (and checked attribute values) of this record kind
/// are pairwise distinct text.
proof fn extern_type_key_facts()
    ensures
        "name"@ != "requires"@,
{
    reveal_strlit("name");
    reveal_strlit("requires");
    assert("name"@.len() == 4);
    assert("name"@[0] == 'n');
    assert("name"@[1] == 'a');
    assert("name"@[2] == 'm');
    assert("name"@[3] == 'e');
    assert("requires"@.len() == 8);
    assert("requires"@[0] == 'r');
    assert("requires"@[1] == 'e');
    assert("requires"@[2] == 'q');
    assert("requires"@[3] == 'u');
    assert("requires"@[4] == 'i');
    assert("requires"@[5] == 'r');
    assert("requires"@[6] == 'e');
    assert("requires"@[7] == 's');
}

/// The record built from decoded pairs: every key must be mapped, and
/// the mandatory fields must be set.
pub open spec fn extern_type_from_pairs(ps: Seq<AttrV>) -> Result<ExternTypeV, ErrV> {
    match first_err_by(ps, extern_type_checker()) {
        Some(e) => Err(e),
        None => if or_empty(last_val(ps, "name"@)).len() == 0 {
            Err(missing_err("name"@, "ExternType"@))
        } else {
            Ok(
                ExternTypeV {
                    name: or_empty(last_val(ps, "name"@)),
                    requires_header: or_empty(last_val(ps, "requires"@)),
                },
            )
        },
    }
}

impl ExternType {
    /// Builds an `ExternType` from decoded attribute pairs.
    #[verifier::loop_isolation(false)]
    pub fn from_pairs(pairs: &Vec<Attr>) -> (r: Result<ExternType, ParseError>)
        ensures
            res_view(r) == extern_type_from_pairs(attrs_view(pairs@)),
    {
        let ghost aps = attrs_view(pairs@);
        let ghost f = extern_type_checker();
        let mut name: Option<String> = None;
        let mut requires_header: String = String::new();
        let mut idx: usize = 0;
        proof {
            assert(aps.skip(0) =~= aps);
            assert(aps.take(0) =~= Seq::<AttrV>::empty());
        }
        while idx < pairs.len()
            invariant
                idx <= pairs@.len(),
                first_err_by(aps, f) == first_err_by(aps.skip(idx as int), f),
                opt_view(name) == last_val(aps.take(idx as int), "name"@),
                requires_header@ == or_empty(last_val(aps.take(idx as int), "requires"@)),
            decreases pairs@.len() - idx,
        {
            let ghost p = aps[idx as int];
            proof {
                extern_type_key_facts();
                assert(p == pairs@[idx as int]@);
                assert(aps.skip(idx as int)[0] == p);
                assert(aps.skip(idx as int).drop_first() =~= aps.skip(idx as int + 1));
                assert(aps.take(idx as int + 1).drop_last() =~= aps.take(idx as int));
                assert(aps.take(idx as int + 1).last() == p);
            }
            let a = &pairs[idx];
            if str_eq(a.key.as_str(), "name") {
                name = Some(a.value.clone());
            } else if str_eq(a.key.as_str(), "requires") {
                requires_header = a.value.clone();
            } else {
                return Err(ParseError::UnexpectedAttribute {
                    key: a.key.clone(),
                    record_kind: "ExternType".to_owned(),
                });
            }
            idx += 1;
        }
        proof {
            assert(aps.skip(pairs@.len() as int) =~= Seq::<AttrV>::empty());
            assert(aps.take(pairs@.len() as int) =~= aps);
        }
        let name = match name {
            Some(v) => v,
            None => {
                return Err(ParseError::MissingRequiredAttribute {
                    name: "name".to_owned(),
                    record_kind: "ExternType".to_owned(),
                });
            },
        };
        if name.as_str().is_empty() {
            return Err(ParseError::MissingRequiredAttribute {
                name: "name".to_owned(),
                record_kind: "ExternType".to_owned(),
            });
        }
        Ok(ExternType {
            name,
            requires_header,
        })
    }

    /// Builds an `ExternType` from a tag's raw attribute text.
    pub fn from_attrs(attrs: &str) -> (r: Result<ExternType, ParseError>)
        ensures
            res_view(r) == extern_type_from_pairs(attrs_of(attrs@)),
    {
        let pairs = decode_attrs(attrs);
        ExternType::from_pairs(&pairs)
    }
}

/// Permuting the tag's attribute pairs never changes the
/// record built, as long as the pair list is valid: keys all distinct and
/// the record accepted.
pub proof fn lemma_extern_type_attr_order(ps1: Seq<AttrV>, ps2: Seq<AttrV>)
    requires
        keys_distinct(ps1),
        ps1.to_multiset() == ps2.to_multiset(),
        extern_type_from_pairs(ps1) is Ok,
    ensures
        extern_type_from_pairs(ps2) == extern_type_from_pairs(ps1),
{
    lemma_first_err_by_permutation_none(ps1, ps2, extern_type_checker());
    lemma_last_val_permutation(ps1, ps2, "name"@);
    lemma_last_val_permutation(ps1, ps2, "requires"@);
}

/// A C pre-processor `#define`.
#[derive(Debug, Clone, PartialEq, Eq)]
pub struct CppDefine {
    pub name: String,
    pub text: String,
    pub deprecated: bool,
    pub requires_attr: Option<String>,
    pub api: Option<String>,
    pub comment: Option<String>,
}

/// The mathematical value of a [`CppDefine`].
pub ghost struct CppDefineV {
    pub name: Seq<char>,
    pub text: Seq<char>,
    pub deprecated: bool,
    pub requires_attr: Option<Seq<char>>,
    pub api: Option<Seq<char>>,
    pub comment: Option<Seq<char>>,
}

impl View for CppDefine {
    type V = CppDefineV;

    open spec fn view(&self) -> CppDefineV {
        CppDefineV {
            name: self.name@,
            text: self.text@,
            deprecated: self.deprecated,
            requires_attr: opt_view(self.requires_attr),
            api: opt_view(self.api),
            comment: opt_view(self.comment),
        }
    }
}

pub open spec fn cpp_define_pair_err(p: AttrV) -> Option<ErrV> {
    if p.key == "category"@ {
        if p.value == "define"@ {
                None
            } else {
                Some(malformed_err("category"@, p.value))
            }
    } else if p.key == "name"@ {
        None
    } else if p.key == "deprecated"@ {
        if p.value == "true"@ || p.value == "false"@ {
                None
            } else {
                Some(malformed_err("deprecated"@, p.value))
            }
    } else if p.key == "requires"@ {
        None
    } else if p.key == "api"@ {
        None
    } else if p.key == "comment"@ {
        None
    } else {
        Some(ErrV::UnexpectedAttribute { key: p.key, record_kind: "CppDefine"@ })
    }
}

pub open spec fn cpp_define_checker() -> spec_fn(AttrV) -> Option<ErrV> {
    |p: AttrV| cpp_define_pair_err(p)
}

/// The attribute keys (and checked attribute values) of this record kind
/// are pairwise distinct text.
proof fn cpp_define_key_facts()
    ensures
        "category"@ != "name"@,
        "category"@ != "deprecated"@,
        "category"@ != "requires"@,
        "category"@ != "api"@,
        "category"@ != "comment"@,
        "name"@ != "deprecated"@,
        "name"@ != "requires"@,
        "name"@ != "api"@,
        "name"@ != "comment"@,
        "deprecated"@ != "requires"@,
        "deprecated"@ != "api"@,
        "deprecated"@ != "comment"@,
        "requires"@ != "api"@,
        "requires"@ != "comment"@,
        "api"@ != "comment"@,
        "true"@ != "false"@,
{
    reveal_strlit("api");
    reveal_strlit("category");
    reveal_strlit("comment");
    reveal_strlit("define");
    reveal_strlit("deprecated");
    reveal_strlit("false");
    reveal_strlit("name");
    reveal_strlit("requires");
    reveal_strlit("true");
    assert("api"@.len() == 3);
    assert("api"@[0] == 'a');
    assert("api"@[1] == 'p');
    assert("api"@[2] == 'i');
    assert("category"@.len() == 8);
    assert("category"@[0] == 'c');
    assert("category"@[1] == 'a');
    assert("category"@[2] == 't');
    assert("category"@[3] == 'e');
    assert("category"@[4] == 'g');
    assert("category"@[5] == 'o');
    assert("category"@[6] == 'r');
    assert("category"@[7] == 'y');
    assert("comment"@.len() == 7);
    assert("comment"@[0] == 'c');
    assert("comment"@[1] == 'o');
    assert("comment"@[2] == 'm');
    assert("comment"@[3] == 'm');
    assert("comment"@[4] == 'e');
    assert("comment"@[5] == 'n');
    assert("comment"@[6] == 't');
    assert("define"@.len() == 6);
    assert("define"@[0] == 'd');
    assert("define"@[1] == 'e');
    assert("define"@[2] == 'f');
    assert("define"@[3] == 'i');
    assert("define"@[4] == 'n');
    assert("define"@[5] == 'e');
    assert("deprecated"@.len() == 10);
    assert("deprecated"@[0] == 'd');
    assert("deprecated"@[1] == 'e');
    assert("deprecated"@[2] == 'p');
    assert("deprecated"@[3] == 'r');
    assert("deprecated"@[4] == 'e');
    assert("deprecated"@[5] == 'c');
    assert("deprecated"@[6] == 'a');
    assert("deprecated"@[7] == 't');
    assert("deprecated"@[8] == 'e');
    assert("deprecated"@[9] == 'd');
    assert("false"@.len() == 5);
    assert("false"@[0] == 'f');
    assert("false"@[1] == 'a');
    assert("false"@[2] == 'l');
    assert("false"@[3] == 's');
    assert("false"@[4] == 'e');
    assert("name"@.len() == 4);
    assert("name"@[0] == 'n');
    assert("name"@[1] == 'a');
    assert("name"@[2] == 'm');
    assert("name"@[3] == 'e');
    assert("requires"@.len() == 8);
    assert("requires"@[0] == 'r');
    assert("requires"@[1] == 'e');
    assert("requires"@[2] == 'q');
    assert("requires"@[3] == 'u');
    assert("requires"@[4] == 'i');
    assert("requires"@[5] == 'r');
    assert("requires"@[6] == 'e');
    assert("requires"@[7] == 's');
    assert("true"@.len() == 4);
    assert("true"@[0] == 't');
    assert("true"@[1] == 'r');
    assert("true"@[2] == 'u');
    assert("true"@[3] == 'e');
}

/// The record built from decoded pairs: every key must be mapped, and
/// the mandatory fields must be set.
pub open spec fn cpp_define_from_pairs(ps: Seq<AttrV>) -> Result<CppDefineV, ErrV> {
    match first_err_by(ps, cpp_define_checker()) {
        Some(e) => Err(e),
        None => Ok(
            CppDefineV {
                name: or_empty(last_val(ps, "name"@)),
                text: Seq::empty(),
                deprecated: last_val(ps, "deprecated"@) == Some("true"@),
                requires_attr: last_val(ps, "requires"@),
                api: last_val(ps, "api"@),
                comment: last_val(ps, "comment"@),
            },
        ),
    }
}

impl CppDefine {
    /// Builds a `CppDefine` from decoded attribute pairs.
    #[verifier::loop_isolation(false)]
    pub fn from_pairs(pairs: &Vec<Attr>) -> (r: Result<CppDefine, ParseError>)
        ensures
            res_view(r) == cpp_define_from_pairs(attrs_view(pairs@)),
    {
        let ghost aps = attrs_view(pairs@);
        let ghost f = cpp_define_checker();
        let mut name: String = String::new();
        let mut deprecated: bool = false;
        let mut requires_attr: Option<String> = None;
        let mut api: Option<String> = None;
        let mut comment: Option<String> = None;
        let mut idx: usize = 0;
        proof {
            assert(aps.skip(0) =~= aps);
            assert(aps.take(0) =~= Seq::<AttrV>::empty());
        }
        while idx < pairs.len()
            invariant
                idx <= pairs@.len(),
                first_err_by(aps, f) == first_err_by(aps.skip(idx as int), f),
                name@ == or_empty(last_val(aps.take(idx as int), "name"@)),
                deprecated == (last_val(aps.take(idx as int), "deprecated"@) == Some("true"@)),
                opt_view(requires_attr) == last_val(aps.take(idx as int), "requires"@),
                opt_view(api) == last_val(aps.take(idx as int), "api"@),
                opt_view(comment) == last_val(aps.take(idx as int), "comment"@),
            decreases pairs@.len() - idx,
        {
            let ghost p = aps[idx as int];
            proof {
                cpp_define_key_facts();
                assert(p == pairs@[idx as int]@);
                assert(aps.skip(idx as int)[0] == p);
                assert(aps.skip(idx as int).drop_first() =~= aps.skip(idx as int + 1));
                assert(aps.take(idx as int + 1).drop_last() =~= aps.take(idx as int));
                assert(aps.take(idx as int + 1).last() == p);
            }
            let a = &pairs[idx];
            if str_eq(a.key.as_str(), "category") {
                if !str_eq(a.value.as_str(), "define") {
                    return Err(ParseError::MalformedAttributeValue {
                        key: a.key.clone(),
                        raw_value: a.value.clone(),
                    });
                }
            } else if str_eq(a.key.as_str(), "name") {
                name = a.value.clone();
            } else if str_eq(a.key.as_str(), "deprecated") {
                if str_eq(a.value.as_str(), "true") {
                    deprecated = true;
                } else if str_eq(a.value.as_str(), "false") {
                    deprecated = false;
                } else {
                    return Err(ParseError::MalformedAttributeValue {
                        key: a.key.clone(),
                        raw_value: a.value.clone(),
                    });
                }
            } else if str_eq(a.key.as_str(), "requires") {
                requires_attr = Some(a.value.clone());
            } else if str_eq(a.key.as_str(), "api") {
                api = Some(a.value.clone());
            } else if str_eq(a.key.as_str(), "comment") {
                comment = Some(a.value.clone());
            } else {
                return Err(ParseError::UnexpectedAttribute {
                    key: a.key.clone(),
                    record_kind: "CppDefine".to_owned(),
                });
            }
            idx += 1;
        }
        proof {
            assert(aps.skip(pairs@.len() as int) =~= Seq::<AttrV>::empty());
            assert(aps.take(pairs@.len() as int) =~= aps);
        }
        Ok(CppDefine {
            name,
            text: String::new(),
            deprecated,
            requires_attr,
            api,
            comment,
        })
    }

    /// Builds a `CppDefine` from a tag's raw attribute text.
    pub fn from_attrs(attrs: &str) -> (r: Result<CppDefine, ParseError>)
        ensures
            res_view(r) == cpp_define_from_pairs(attrs_of(attrs@)),
    {
        let pairs = decode_attrs(attrs);
        CppDefine::from_pairs(&pairs)
    }
}

/// Permuting the tag's attribute pairs never changes the
/// record built, as long as the pair list is valid: keys all distinct and
/// the record accepted.
pub proof fn lemma_cpp_define_attr_order(ps1: Seq<AttrV>, ps2: Seq<AttrV>)
    requires
        keys_distinct(ps1),
        ps1.to_multiset() == ps2.to_multiset(),
        cpp_define_from_pairs(ps1) is Ok,
    ensures
        cpp_define_from_pairs(ps2) == cpp_define_from_pairs(ps1),
{
    lemma_first_err_by_permutation_none(ps1, ps2, cpp_define_checker());
    lemma_last_val_permutation(ps1, ps2, "category"@);
    lemma_last_val_permutation(ps1, ps2, "name"@);
    lemma_last_val_permutation(ps1, ps2, "deprecated"@);
    lemma_last_val_permutation(ps1, ps2, "requires"@);
    lemma_last_val_permutation(ps1, ps2, "api"@);
    lemma_last_val_permutation(ps1, ps2, "comment"@);
}

/// A base scalar typedef.
#[derive(Debug, Clone, PartialEq, Eq)]
pub struct BaseType {
    pub name: String,
    pub text: String,
}

/// The mathematical value of a [`BaseType`].
pub ghost struct BaseTypeV {
    pub name: Seq<char>,
    pub text: Seq<char>,
}

impl View for BaseType {
    type V = BaseTypeV;

    open spec fn view(&self) -> BaseTypeV {
        BaseTypeV {
            name: self.name@,
            text: self.text@,
        }
    }
}

pub open spec fn base_type_pair_err(p: AttrV) -> Option<ErrV> {
    if p.key == "category"@ {
        if p.value == "basetype"@ {
                None
            } else {
                Some(malformed_err("category"@, p.value))
            }
    } else {
        Some(ErrV::UnexpectedAttribute { key: p.key, record_kind: "BaseType"@ })
    }
}

pub open spec fn base_type_checker() -> spec_fn(AttrV) -> Option<ErrV> {
    |p: AttrV| base_type_pair_err(p)
}

/// The attribute keys (and checked attribute values) of this record kind
/// are pairwise distinct text.
proof fn base_type_key_facts()
    ensures
{
    reveal_strlit("basetype");
    reveal_strlit("category");
    assert("basetype"@.len() == 8);
    assert("basetype"@[0] == 'b');
    assert("basetype"@[1] == 'a');
    assert("basetype"@[2] == 's');
    assert("basetype"@[3] == 'e');
    assert("basetype"@[4] == 't');
    assert("basetype"@[5] == 'y');
    assert("basetype"@[6] == 'p');
    assert("basetype"@[7] == 'e');
    assert("category"@.len() == 8);
    assert("category"@[0] == 'c');
    assert("category"@[1] == 'a');
    assert("category"@[2] == 't');
    assert("category"@[3] == 'e');
    assert("category"@[4] == 'g');
    assert("category"@[5] == 'o');
    assert("category"@[6] == 'r');
    assert("category"@[7] == 'y');
}

/// The record built from decoded pairs: every key must be mapped, and
/// the mandatory fields must be set.
pub open spec fn base_type_from_pairs(ps: Seq<AttrV>) -> Result<BaseTypeV, ErrV> {
    match first_err_by(ps, base_type_checker()) {
        Some(e) => Err(e),
        None => Ok(
            BaseTypeV {
                name: Seq::empty(),
                text: Seq::empty(),
            },
        ),
    }
}

impl BaseType {
    /// Builds a `BaseType` from decoded attribute pairs.
    #[verifier::loop_isolation(false)]
    pub fn from_pairs(pairs: &Vec<Attr>) -> (r: Result<BaseType, ParseError>)
        ensures
            res_view(r) == base_type_from_pairs(attrs_view(pairs@)),
    {
        let ghost aps = attrs_view(pairs@);
        let ghost f = base_type_checker();
        let mut idx: usize = 0;
        proof {
            assert(aps.skip(0) =~= aps);
            assert(aps.take(0) =~= Seq::<AttrV>::empty());
        }
        while idx < pairs.len()
            invariant
                idx <= pairs@.len(),
                first_err_by(aps, f) == first_err_by(aps.skip(idx as int), f),
            decreases pairs@.len() - idx,
        {
            let ghost p = aps[idx as int];
            proof {
                base_type_key_facts();
                assert(p == pairs@[idx as int]@);
                assert(aps.skip(idx as int)[0] == p);
                assert(aps.skip(idx as int).drop_first() =~= aps.skip(idx as int + 1));
                assert(aps.take(idx as int + 1).drop_last() =~= aps.take(idx as int));
                assert(aps.take(idx as int + 1).last() == p);
            }
            let a = &pairs[idx];
            if str_eq(a.key.as_str(), "category") {
                if !str_eq(a.value.as_str(), "basetype") {
                    return Err(ParseError::MalformedAttributeValue {
                        key: a.key.clone(),
                        raw_value: a.value.clone(),
                    });
                }
            } else {
                return Err(ParseError::UnexpectedAttribute {
                    key: a.key.clone(),
                    record_kind: "BaseType".to_owned(),
                });
            }
            idx += 1;
        }
        proof {
            assert(aps.skip(pairs@.len() as int) =~= Seq::<AttrV>::empty());
            assert(aps.take(pairs@.len() as int) =~= aps);
        }
        Ok(BaseType {
            name: String::new(),
            text: String::new(),
        })
    }

    /// Builds a `BaseType` from a tag's raw attribute text.
    pub fn from_attrs(attrs: &str) -> (r: Result<BaseType, ParseError>)
        ensures
            res_view(r) == base_type_from_pairs(attrs_of(attrs@)),
    {
        let pairs = decode_attrs(attrs);
        BaseType::from_pairs(&pairs)
    }
}

/// Permuting the tag's attribute pairs never changes the
/// record built, as long as the pair list is valid: keys all distinct and
/// the record accepted.
pub proof fn lemma_base_type_attr_order(ps1: Seq<AttrV>, ps2: Seq<AttrV>)
    requires
        keys_distinct(ps1),
        ps1.to_multiset() == ps2.to_multiset(),
        base_type_from_pairs(ps1) is Ok,
    ensures
        base_type_from_pairs(ps2) == base_type_from_pairs(ps1),
{
    lemma_first_err_by_permutation_none(ps1, ps2, base_type_checker());
    lemma_last_val_permutation(ps1, ps2, "category"@);
}

/// A flags type; 64-bit flags name their bit source in `bit_values`, 32-bit flags in `requires`.
#[derive(Debug, Clone, PartialEq, Eq)]
pub struct Bitmask {
    pub name: String,
    pub requires_attr: Option<String>,
    pub api: Option<String>,
    pub bit_values: Option<String>,
    pub flags64: bool,
}

/// The mathematical value of a [`Bitmask`].
pub ghost struct BitmaskV {
    pub name: Seq<char>,
    pub requires_attr: Option<Seq<char>>,
    pub api: Option<Seq<char>>,
    pub bit_values: Option<Seq<char>>,
    pub flags64: bool,
}

impl View for Bitmask {
    type V = BitmaskV;

    open spec fn view(&self) -> BitmaskV {
        BitmaskV {
            name: self.name@,
            requires_attr: opt_view(self.requires_attr),
            api: opt_view(self.api),
            bit_values: opt_view(self.bit_values),
            flags64: self.flags64,
        }
    }
}

pub open spec fn bitmask_pair_err(p: AttrV) -> Option<ErrV> {
    if p.key == "name"@ {
        None
    } else if p.key == "category"@ {
        if p.value == "bitmask"@ || p.value == "enum"@ {
                None
            } else {
                Some(malformed_err("category"@, p.value))
            }
    } else if p.key == "requires"@ {
        None
    } else if p.key == "api"@ {
        None
    } else if p.key == "bitvalues"@ {
        None
    } else {
        Some(ErrV::UnexpectedAttribute { key: p.key, record_kind: "Bitmask"@ })
    }
}

pub open spec fn bitmask_checker() -> spec_fn(AttrV) -> Option<ErrV> {
    |p: AttrV| bitmask_pair_err(p)
}

/// The attribute keys (and checked attribute values) of this record kind
/// are pairwise distinct text.
proof fn bitmask_key_facts()
    ensures
        "name"@ != "category"@,
        "name"@ != "requires"@,
        "name"@ != "api"@,
        "name"@ != "bitvalues"@,
        "category"@ != "requires"@,
        "category"@ != "api"@,
        "category"@ != "bitvalues"@,
        "requires"@ != "api"@,
        "requires"@ != "bitvalues"@,
        "api"@ != "bitvalues"@,
        "bitmask"@ != "enum"@,
{
    reveal_strlit("api");
    reveal_strlit("bitmask");
    reveal_strlit("bitvalues");
    reveal_strlit("category");
    reveal_strlit("enum");
    reveal_strlit("name");
    reveal_strlit("requires");
    assert("api"@.len() == 3);
    assert("api"@[0] == 'a');
    assert("api"@[1] == 'p');
    assert("api"@[2] == 'i');
    assert("bitmask"@.len() == 7);
    assert("bitmask"@[0] == 'b');
    assert("bitmask"@[1] == 'i');
    assert("bitmask"@[2] == 't');
    assert("bitmask"@[3] == 'm');
    assert("bitmask"@[4] == 'a');
    assert("bitmask"@[5] == 's');
    assert("bitmask"@[6] == 'k');
    assert("bitvalues"@.len() == 9);
    assert("bitvalues"@[0] == 'b');
    assert("bitvalues"@[1] == 'i');
    assert("bitvalues"@[2] == 't');
    assert("bitvalues"@[3] == 'v');
    assert("bitvalues"@[4] == 'a');
    assert("bitvalues"@[5] == 'l');
    assert("bitvalues"@[6] == 'u');
    assert("bitvalues"@[7] == 'e');
    assert("bitvalues"@[8] == 's');
    assert("category"@.len() == 8);
    assert("category"@[0] == 'c');
    assert("category"@[1] == 'a');
    assert("category"@[2] == 't');
    assert("category"@[3] == 'e');
    assert("category"@[4] == 'g');
    assert("category"@[5] == 'o');
    assert("category"@[6] == 'r');
    assert("category"@[7] == 'y');
    assert("enum"@.len() == 4);
    assert("enum"@[0] == 'e');
    assert("enum"@[1] == 'n');
    assert("enum"@[2] == 'u');
    assert("enum"@[3] == 'm');
    assert("name"@.len() == 4);
    assert("name"@[0] == 'n');
    assert("name"@[1] == 'a');
    assert("name"@[2] == 'm');
    assert("name"@[3] == 'e');
    assert("requires"@.len() == 8);
    assert("requires"@[0] == 'r');
    assert("requires"@[1] == 'e');
    assert("requires"@[2] == 'q');
    assert("requires"@[3] == 'u');
    assert("requires"@[4] == 'i');
    assert("requires"@[5] == 'r');
    assert("requires"@[6] == 'e');
    assert("requires"@[7] == 's');
}

/// The record built from decoded pairs: every key must be mapped, and
/// the mandatory fields must be set.
pub open spec fn bitmask_from_pairs(ps: Seq<AttrV>) -> Result<BitmaskV, ErrV> {
    match first_err_by(ps, bitmask_checker()) {
        Some(e) => Err(e),
        None => Ok(
            BitmaskV {
                name: or_empty(last_val(ps, "name"@)),
                requires_attr: last_val(ps, "requires"@),
                api: last_val(ps, "api"@),
                bit_values: last_val(ps, "bitvalues"@),
                flags64: false,
            },
        ),
    }
}

impl Bitmask {
    /// Builds a `Bitmask` from decoded attribute pairs.
    #[verifier::loop_isolation(false)]
    pub fn from_pairs(pairs: &Vec<Attr>) -> (r: Result<Bitmask, ParseError>)
        ensures
            res_view(r) == bitmask_from_pairs(attrs_view(pairs@)),
    {
        let ghost aps = attrs_view(pairs@);
        let ghost f = bitmask_checker();
        let mut name: String = String::new();
        let mut requires_attr: Option<String> = None;
        let mut api: Option<String> = None;
        let mut bit_values: Option<String> = None;
        let mut idx: usize = 0;
        proof {
            assert(aps.skip(0) =~= aps);
            assert(aps.take(0) =~= Seq::<AttrV>::empty());
        }
        while idx < pairs.len()
            invariant
                idx <= pairs@.len(),
                first_err_by(aps, f) == first_err_by(aps.skip(idx as int), f),
                name@ == or_empty(last_val(aps.take(idx as int), "name"@)),
                opt_view(requires_attr) == last_val(aps.take(idx as int), "requires"@),
                opt_view(api) == last_val(aps.take(idx as int), "api"@),
                opt_view(bit_values) == last_val(aps.take(idx as int), "bitvalues"@),
            decreases pairs@.len() - idx,
        {
            let ghost p = aps[idx as int];
            proof {
                bitmask_key_facts();
                assert(p == pairs@[idx as int]@);
                assert(aps.skip(idx as int)[0] == p);
                assert(aps.skip(idx as int).drop_first() =~= aps.skip(idx as int + 1));
                assert(aps.take(idx as int + 1).drop_last() =~= aps.take(idx as int));
                assert(aps.take(idx as int + 1).last() == p);
            }
            let a = &pairs[idx];
            if str_eq(a.key.as_str(), "name") {
                name = a.value.clone();
            } else if str_eq(a.key.as_str(), "category") {
                if !str_eq(a.value.as_str(), "bitmask") && !str_eq(a.value.as_str(), "enum") {
                    return Err(ParseError::MalformedAttributeValue {
                        key: a.key.clone(),
                        raw_value: a.value.clone(),
                    });
                }
            } else if str_eq(a.key.as_str(), "requires") {
                requires_attr = Some(a.value.clone());
            } else if str_eq(a.key.as_str(), "api") {
                api = Some(a.value.clone());
            } else if str_eq(a.key.as_str(), "bitvalues") {
                bit_values = Some(a.value.clone());
            } else {
                return Err(ParseError::UnexpectedAttribute {
                    key: a.key.clone(),
                    record_kind: "Bitmask".to_owned(),
                });
            }
            idx += 1;
        }
        proof {
            assert(aps.skip(pairs@.len() as int) =~= Seq::<AttrV>::empty());
            assert(aps.take(pairs@.len() as int) =~= aps);
        }
        Ok(Bitmask {
            name,
            requires_attr,
            api,
            bit_values,
            flags64: false,
        })
    }

    /// Builds a `Bitmask` from a tag's raw attribute text.
    pub fn from_attrs(attrs: &str) -> (r: Result<Bitmask, ParseError>)
        ensures
            res_view(r) == bitmask_from_pairs(attrs_of(attrs@)),
    {
        let pairs = decode_attrs(attrs);
        Bitmask::from_pairs(&pairs)
    }
}

/// Permuting the tag's attribute pairs never changes the
/// record built, as long as the pair list is valid: keys all distinct and
/// the record accepted.
pub proof fn lemma_bitmask_attr_order(ps1: Seq<AttrV>, ps2: Seq<AttrV>)
    requires
        keys_distinct(ps1),
        ps1.to_multiset() == ps2.to_multiset(),
        bitmask_from_pairs(ps1) is Ok,
    ensures
        bitmask_from_pairs(ps2) == bitmask_from_pairs(ps1),
{
    lemma_first_err_by_permutation_none(ps1, ps2, bitmask_checker());
    lemma_last_val_permutation(ps1, ps2, "name"@);
    lemma_last_val_permutation(ps1, ps2, "category"@);
    lemma_last_val_permutation(ps1, ps2, "requires"@);
    lemma_last_val_permutation(ps1, ps2, "api"@);
    lemma_last_val_permutation(ps1, ps2, "bitvalues"@);
}

/// A type that stands for another type by name.
#[derive(Debug, Clone, PartialEq, Eq)]
pub struct TypeAlias {
    pub name: String,
    pub alias_of: String,
    pub category: Option<String>,
}

/// The mathematical value of a [`TypeAlias`].
pub ghost struct TypeAliasV {
    pub name: Seq<char>,
    pub alias_of: Seq<char>,
    pub category: Option<Seq<char>>,
}

impl View for TypeAlias {
    type V = TypeAliasV;

    open spec fn view(&self) -> TypeAliasV {
        TypeAliasV {
            name: self.name@,
            alias_of: self.alias_of@,
            category: opt_view(self.category),
        }
    }
}

pub open spec fn type_alias_pair_err(p: AttrV) -> Option<ErrV> {
    if p.key == "name"@ {
        None
    } else if p.key == "alias"@ {
        None
    } else if p.key == "category"@ {
        None
    } else {
        Some(ErrV::UnexpectedAttribute { key: p.key, record_kind: "TypeAlias"@ })
    }
}

pub open spec fn type_alias_checker() -> spec_fn(AttrV) -> Option<ErrV> {
    |p: AttrV| type_alias_pair_err(p)
}

/// The attribute keys (and checked attribute values) of this record kind
/// are pairwise distinct text.
proof fn type_alias_key_facts()
    ensures
        "name"@ != "alias"@,
        "name"@ != "category"@,
        "alias"@ != "category"@,
{
    reveal_strlit("alias");
    reveal_strlit("category");
    reveal_strlit("name");
    assert("alias"@.len() == 5);
    assert("alias"@[0] == 'a');
    assert("alias"@[1] == 'l');
    assert("alias"@[2] == 'i');
    assert("alias"@[3] == 'a');
    assert("alias"@[4] == 's');
    assert("category"@.len() == 8);
    assert("category"@[0] == 'c');
    assert("category"@[1] == 'a');
    assert("category"@[2] == 't');
    assert("category"@[3] == 'e');
    assert("category"@[4] == 'g');
    assert("category"@[5] == 'o');
    assert("category"@[6] == 'r');
    assert("category"@[7] == 'y');
    assert("name"@.len() == 4);
    assert("name"@[0] == 'n');
    assert("name"@[1] == 'a');
    assert("name"@[2] == 'm');
    assert("name"@[3] == 'e');
}

/// The record built from decoded pairs: every key must be mapped, and
/// the mandatory fields must be set.
pub open spec fn type_alias_from_pairs(ps: Seq<AttrV>) -> Result<TypeAliasV, ErrV> {
    match first_err_by(ps, type_alias_checker()) {
        Some(e) => Err(e),
        None => if or_empty(last_val(ps, "name"@)).len() == 0 {
            Err(missing_err("name"@, "TypeAlias"@))
        } else {
            Ok(
                TypeAliasV {
                    name: or_empty(last_val(ps, "name"@)),
                    alias_of: or_empty(last_val(ps, "alias"@)),
                    category: last_val(ps, "category"@),
                },
            )
        },
    }
}

impl TypeAlias {
    /// Builds a `TypeAlias` from decoded attribute pairs.
    #[verifier::loop_isolation(false)]
    pub fn from_pairs(pairs: &Vec<Attr>) -> (r: Result<TypeAlias, ParseError>)
        ensures
            res_view(r) == type_alias_from_pairs(attrs_view(pairs@)),
    {
        let ghost aps = attrs_view(pairs@);
        let ghost f = type_alias_checker();
        let mut name: Option<String> = None;
        let mut alias_of: String = String::new();
        let mut category: Option<String> = None;
        let mut idx: usize = 0;
        proof {
            assert(aps.skip(0) =~= aps);
            assert(aps.take(0) =~= Seq::<AttrV>::empty());
        }
        while idx < pairs.len()
            invariant
                idx <= pairs@.len(),
                first_err_by(aps, f) == first_err_by(aps.skip(idx as int), f),
                opt_view(name) == last_val(aps.take(idx as int), "name"@),
                alias_of@ == or_empty(last_val(aps.take(idx as int), "alias"@)),
                opt_view(category) == last_val(aps.take(idx as int), "category"@),
            decreases pairs@.len() - idx,
        {
            let ghost p = aps[idx as int];
            proof {
                type_alias_key_facts();
                assert(p == pairs@[idx as int]@);
                assert(aps.skip(idx as int)[0] == p);
                assert(aps.skip(idx as int).drop_first() =~= aps.skip(idx as int + 1));
                assert(aps.take(idx as int + 1).drop_last() =~= aps.take(idx as int));
                assert(aps.take(idx as int + 1).last() == p);
            }
            let a = &pairs[idx];
            if str_eq(a.key.as_str(), "name") {
                name = Some(a.value.clone());
            } else if str_eq(a.key.as_str(), "alias") {
                alias_of = a.value.clone();
            } else if str_eq(a.key.as_str(), "category") {
                category = Some(a.value.clone());
            } else {
                return Err(ParseError::UnexpectedAttribute {
                    key: a.key.clone(),
                    record_kind: "TypeAlias".to_owned(),
                });
            }
            idx += 1;
        }
        proof {
            assert(aps.skip(pairs@.len() as int) =~= Seq::<AttrV>::empty());
            assert(aps.take(pairs@.len() as int) =~= aps);
        }
        let name = match name {
            Some(v) => v,
            None => {
                return Err(ParseError::MissingRequiredAttribute {
                    name: "name".to_owned(),
                    record_kind: "TypeAlias".to_owned(),
                });
            },
        };
        if name.as_str().is_empty() {
            return Err(ParseError::MissingRequiredAttribute {
                name: "name".to_owned(),
                record_kind: "TypeAlias".to_owned(),
            });
        }
        Ok(TypeAlias {
            name,
            alias_of,
            category,
        })
    }

    /// Builds a `TypeAlias` from a tag's raw attribute text.
    pub fn from_attrs(attrs: &str) -> (r: Result<TypeAlias, ParseError>)
        ensures
            res_view(r) == type_alias_from_pairs(attrs_of(attrs@)),
    {
        let pairs = decode_attrs(attrs);
        TypeAlias::from_pairs(&pairs)
    }
}

/// Permuting the tag's attribute pairs never changes the
/// record built, as long as the pair list is valid: keys all distinct and
/// the record accepted.
pub proof fn lemma_type_alias_attr_order(ps1: Seq<AttrV>, ps2: Seq<AttrV>)
    requires
        keys_distinct(ps1),
        ps1.to_multiset() == ps2.to_multiset(),
        type_alias_from_pairs(ps1) is Ok,
    ensures
        type_alias_from_pairs(ps2) == type_alias_from_pairs(ps1),
{
    lemma_first_err_by_permutation_none(ps1, ps2, type_alias_checker());
    lemma_last_val_permutation(ps1, ps2, "name"@);
    lemma_last_val_permutation(ps1, ps2, "alias"@);
    lemma_last_val_permutation(ps1, ps2, "category"@);
}

/// An API object handle.
#[derive(Debug, Clone, PartialEq, Eq)]
pub struct Handle {
    pub name: String,
    pub obj_ty_enum: String,
    pub parent: Option<String>,
    pub non_dispatchable: bool,
}

/// The mathematical value of a [`Handle`].
pub ghost struct HandleV {
    pub name: Seq<char>,
    pub obj_ty_enum: Seq<char>,
    pub parent: Option<Seq<char>>,
    pub non_dispatchable: bool,
}

impl View for Handle {
    type V = HandleV;

    open spec fn view(&self) -> HandleV {
        HandleV {
            name: self.name@,
            obj_ty_enum: self.obj_ty_enum@,
            parent: opt_view(self.parent),
            non_dispatchable: self.non_dispatchable,
        }
    }
}

pub open spec fn handle_pair_err(p: AttrV) -> Option<ErrV> {
    if p.key == "category"@ {
        if p.value == "handle"@ {
                None
            } else {
                Some(malformed_err("category"@, p.value))
            }
    } else if p.key == "name"@ {
        None
    } else if p.key == "objtypeenum"@ {
        None
    } else if p.key == "parent"@ {
        None
    } else {
        Some(ErrV::UnexpectedAttribute { key: p.key, record_kind: "Handle"@ })
    }
}

pub open spec fn handle_checker() -> spec_fn(AttrV) -> Option<ErrV> {
    |p: AttrV| handle_pair_err(p)
}

/// The attribute keys (and checked attribute values) of this record kind
/// are pairwise distinct text.
proof fn handle_key_facts()
    ensures
        "category"@ != "name"@,
        "category"@ != "objtypeenum"@,
        "category"@ != "parent"@,
        "name"@ != "objtypeenum"@,
        "name"@ != "parent"@,
        "objtypeenum"@ != "parent"@,
{
    reveal_strlit("category");
    reveal_strlit("handle");
    reveal_strlit("name");
    reveal_strlit("objtypeenum");
    reveal_strlit("parent");
    assert("category"@.len() == 8);
    assert("category"@[0] == 'c');
    assert("category"@[1] == 'a');
    assert("category"@[2] == 't');
    assert("category"@[3] == 'e');
    assert("category"@[4] == 'g');
    assert("category"@[5] == 'o');
    assert("category"@[6] == 'r');
    assert("category"@[7] == 'y');
    assert("handle"@.len() == 6);
    assert("handle"@[0] == 'h');
    assert("handle"@[1] == 'a');
    assert("handle"@[2] == 'n');
    assert("handle"@[3] == 'd');
    assert("handle"@[4] == 'l');
    assert("handle"@[5] == 'e');
    assert("name"@.len() == 4);
    assert("name"@[0] == 'n');
    assert("name"@[1] == 'a');
    assert("name"@[2] == 'm');
    assert("name"@[3] == 'e');
    assert("objtypeenum"@.len() == 11);
    assert("objtypeenum"@[0] == 'o');
    assert("objtypeenum"@[1] == 'b');
    assert("objtypeenum"@[2] == 'j');
    assert("objtypeenum"@[3] == 't');
    assert("objtypeenum"@[4] == 'y');
    assert("objtypeenum"@[5] == 'p');
    assert("objtypeenum"@[6] == 'e');
    assert("objtypeenum"@[7] == 'e');
    assert("objtypeenum"@[8] == 'n');
    assert("objtypeenum"@[9] == 'u');
    assert("objtypeenum"@[10] == 'm');
    assert("parent"@.len() == 6);
    assert("parent"@[0] == 'p');
    assert("parent"@[1] == 'a');
    assert("parent"@[2] == 'r');
    assert("parent"@[3] == 'e');
    assert("parent"@[4] == 'n');
    assert("parent"@[5] == 't');
}

/// The record built from decoded pairs: every key must be mapped, and
/// the mandatory fields must be set.
pub open spec fn handle_from_pairs(ps: Seq<AttrV>) -> Result<HandleV, ErrV> {
    match first_err_by(ps, handle_checker()) {
        Some(e) => Err(e),
        None => Ok(
            HandleV {
                name: or_empty(last_val(ps, "name"@)),
                obj_ty_enum: or_empty(last_val(ps, "objtypeenum"@)),
                parent: last_val(ps, "parent"@),
                non_dispatchable: false,
            },
        ),
    }
}

impl Handle {
    /// Builds a `Handle` from decoded attribute pairs.
    #[verifier::loop_isolation(false)]
    pub fn from_pairs(pairs: &Vec<Attr>) -> (r: Result<Handle, ParseError>)
        ensures
            res_view(r) == handle_from_pairs(attrs_view(pairs@)),
    {
        let ghost aps = attrs_view(pairs@);
        let ghost f = handle_checker();
        let mut name: String = String::new();
        let mut obj_ty_enum: String = String::new();
        let mut parent: Option<String> = None;
        let mut idx: usize = 0;
        proof {
            assert(aps.skip(0) =~= aps);
            assert(aps.take(0) =~= Seq::<AttrV>::empty());
        }
        while idx < pairs.len()
            invariant
                idx <= pairs@.len(),
                first_err_by(aps, f) == first_err_by(aps.skip(idx as int), f),
                name@ == or_empty(last_val(aps.take(idx as int), "name"@)),
                obj_ty_enum@ == or_empty(last_val(aps.take(idx as int), "objtypeenum"@)),
                opt_view(parent) == last_val(aps.take(idx as int), "parent"@),
            decreases pairs@.len() - idx,
        {
            let ghost p = aps[idx as int];
            proof {
                handle_key_facts();
                assert(p == pairs@[idx as int]@);
                assert(aps.skip(idx as int)[0] == p);
                assert(aps.skip(idx as int).drop_first() =~= aps.skip(idx as int + 1));
                assert(aps.take(idx as int + 1).drop_last() =~= aps.take(idx as int));
                assert(aps.take(idx as int + 1).last() == p);
            }
            let a = &pairs[idx];
            if str_eq(a.key.as_str(), "category") {
                if !str_eq(a.value.as_str(), "handle") {
                    return Err(ParseError::MalformedAttributeValue {
                        key: a.key.clone(),
                        raw_value: a.value.clone(),
                    });
                }
            } else if str_eq(a.key.as_str(), "name") {
                name = a.value.clone();
            } else if str_eq(a.key.as_str(), "objtypeenum") {
                obj_ty_enum = a.value.clone();
            } else if str_eq(a.key.as_str(), "parent") {
                parent = Some(a.value.clone());
            } else {
                return Err(ParseError::UnexpectedAttribute {
                    key: a.key.clone(),
                    record_kind: "Handle".to_owned(),
                });
            }
            idx += 1;
        }
        proof {
            assert(aps.skip(pairs@.len() as int) =~= Seq::<AttrV>::empty());
            assert(aps.take(pairs@.len() as int) =~= aps);
        }
        Ok(Handle {
            name,
            obj_ty_enum,
            parent,
            non_dispatchable: false,
        })
    }

    /// Builds a `Handle` from a tag's raw attribute text.
    pub fn from_attrs(attrs: &str) -> (r: Result<Handle, ParseError>)
        ensures
            res_view(r) == handle_from_pairs(attrs_of(attrs@)),
    {
        let pairs = decode_attrs(attrs);
        Handle::from_pairs(&pairs)
    }
}

/// Permuting the tag's attribute pairs never changes the
/// record built, as long as the pair list is valid: keys all distinct and
/// the record accepted.
pub proof fn lemma_handle_attr_order(ps1: Seq<AttrV>, ps2: Seq<AttrV>)
    requires
        keys_distinct(ps1),
        ps1.to_multiset() == ps2.to_multiset(),
        handle_from_pairs(ps1) is Ok,
    ensures
        handle_from_pairs(ps2) == handle_from_pairs(ps1),
{
    lemma_first_err_by_permutation_none(ps1, ps2, handle_checker());
    lemma_last_val_permutation(ps1, ps2, "category"@);
    lemma_last_val_permutation(ps1, ps2, "name"@);
    lemma_last_val_permutation(ps1, ps2, "objtypeenum"@);
    lemma_last_val_permutation(ps1, ps2, "parent"@);
}

/// An enumeration type; its entries live in the matching `<enums>` group.
#[derive(Debug, Clone, PartialEq, Eq)]
pub struct Enumeration {
    pub name: String,
}

/// The mathematical value of a [`Enumeration`].
pub ghost struct EnumerationV {
    pub name: Seq<char>,
}

impl View for Enumeration {
    type V = EnumerationV;

    open spec fn view(&self) -> EnumerationV {
        EnumerationV {
            name: self.name@,
        }
    }
}

pub open spec fn enumeration_pair_err(p: AttrV) -> Option<ErrV> {
    if p.key == "category"@ {
        if p.value == "enum"@ {
                None
            } else {
                Some(malformed_err("category"@, p.value))
            }
    } else if p.key == "name"@ {
        None
    } else {
        Some(ErrV::UnexpectedAttribute { key: p.key, record_kind: "Enumeration"@ })
    }
}

pub open spec fn enumeration_checker() -> spec_fn(AttrV) -> Option<ErrV> {
    |p: AttrV| enumeration_pair_err(p)
}

/// The attribute keys (and checked attribute values) of this record kind
/// are pairwise distinct text.
proof fn enumeration_key_facts()
    ensures
        "category"@ != "name"@,
{
    reveal_strlit("category");
    reveal_strlit("enum");
    reveal_strlit("name");
    assert("category"@.len() == 8);
    assert("category"@[0] == 'c');
    assert("category"@[1] == 'a');
    assert("category"@[2] == 't');
    assert("category"@[3] == 'e');
    assert("category"@[4] == 'g');
    assert("category"@[5] == 'o');
    assert("category"@[6] == 'r');
    assert("category"@[7] == 'y');
    assert("enum"@.len() == 4);
    assert("enum"@[0] == 'e');
    assert("enum"@[1] == 'n');
    assert("enum"@[2] == 'u');
    assert("enum"@[3] == 'm');
    assert("name"@.len() == 4);
    assert("name"@[0] == 'n');
    assert("name"@[1] == 'a');
    assert("name"@[2] == 'm');
    assert("name"@[3] == 'e');
}

/// The record built from decoded pairs: every key must be mapped, and
/// the mandatory fields must be set.
pub open spec fn enumeration_from_pairs(ps: Seq<AttrV>) -> Result<EnumerationV, ErrV> {
    match first_err_by(ps, enumeration_checker()) {
        Some(e) => Err(e),
        None => if or_empty(last_val(ps, "name"@)).len() == 0 {
            Err(missing_err("name"@, "Enumeration"@))
        } else {
            Ok(
                EnumerationV {
                    name: or_empty(last_val(ps, "name"@)),
                },
            )
        },
    }
}

impl Enumeration {
    /// Builds an `Enumeration` from decoded attribute pairs.
    #[verifier::loop_isolation(false)]
    pub fn from_pairs(pairs: &Vec<Attr>) -> (r: Result<Enumeration, ParseError>)
        ensures
            res_view(r) == enumeration_from_pairs(attrs_view(pairs@)),
    {
        let ghost aps = attrs_view(pairs@);
        let ghost f = enumeration_checker();
        let mut name: Option<String> = None;
        let mut idx: usize = 0;
        proof {
            assert(aps.skip(0) =~= aps);
            assert(aps.take(0) =~= Seq::<AttrV>::empty());
        }
        while idx < pairs.len()
            invariant
                idx <= pairs@.len(),
                first_err_by(aps, f) == first_err_by(aps.skip(idx as int), f),
                opt_view(name) == last_val(aps.take(idx as int), "name"@),
            decreases pairs@.len() - idx,
        {
            let ghost p = aps[idx as int];
            proof {
                enumeration_key_facts();
                assert(p == pairs@[idx as int]@);
                assert(aps.skip(idx as int)[0] == p);
                assert(aps.skip(idx as int).drop_first() =~= aps.skip(idx as int + 1));
                assert(aps.take(idx as int + 1).drop_last() =~= aps.take(idx as int));
                assert(aps.take(idx as int + 1).last() == p);
            }
            let a = &pairs[idx];
            if str_eq(a.key.as_str(), "category") {
                if !str_eq(a.value.as_str(), "enum") {
                    return Err(ParseError::MalformedAttributeValue {
                        key: a.key.clone(),
                        raw_value: a.value.clone(),
                    });
                }
            } else if str_eq(a.key.as_str(), "name") {
                name = Some(a.value.clone());
            } else {
                return Err(ParseError::UnexpectedAttribute {
                    key: a.key.clone(),
                    record_kind: "Enumeration".to_owned(),
                });
            }
            idx += 1;
        }
        proof {
            assert(aps.skip(pairs@.len() as int) =~= Seq::<AttrV>::empty());
            assert(aps.take(pairs@.len() as int) =~= aps);
        }
        let name = match name {
            Some(v) => v,
            None => {
                return Err(ParseError::MissingRequiredAttribute {
                    name: "name".to_owned(),
                    record_kind: "Enumeration".to_owned(),
                });
            },
        };
        if name.as_str().is_empty() {
            return Err(ParseError::MissingRequiredAttribute {
                name: "name".to_owned(),
                record_kind: "Enumeration".to_owned(),
            });
        }
        Ok(Enumeration {
            name,
        })
    }

    /// Builds an `Enumeration` from a tag's raw attribute text.
    pub fn from_attrs(attrs: &str) -> (r: Result<Enumeration, ParseError>)
        ensures
            res_view(r) == enumeration_from_pairs(attrs_of(attrs@)),
    {
        let pairs = decode_attrs(attrs);
        Enumeration::from_pairs(&pairs)
    }
}

/// Permuting the tag's attribute pairs never changes the
/// record built, as long as the pair list is valid: keys all distinct and
/// the record accepted.
pub proof fn lemma_enumeration_attr_order(ps1: Seq<AttrV>, ps2: Seq<AttrV>)
    requires
        keys_distinct(ps1),
        ps1.to_multiset() == ps2.to_multiset(),
        enumeration_from_pairs(ps1) is Ok,
    ensures
        enumeration_from_pairs(ps2) == enumeration_from_pairs(ps1),
{
    lemma_first_err_by_permutation_none(ps1, ps2, enumeration_checker());
    lemma_last_val_permutation(ps1, ps2, "category"@);
    lemma_last_val_permutation(ps1, ps2, "name"@);
}

/// A C function pointer typedef, kept as normalized declaration text.
#[derive(Debug, Clone, PartialEq, Eq)]
pub struct FuncPointer {
    pub name: String,
    pub text: String,
    pub requires_attr: Option<String>,
}

/// The mathematical value of a [`FuncPointer`].
pub ghost struct FuncPointerV {
    pub name: Seq<char>,
    pub text: Seq<char>,
    pub requires_attr: Option<Seq<char>>,
}

impl View for FuncPointer {
    type V = FuncPointerV;

    open spec fn view(&self) -> FuncPointerV {
        FuncPointerV {
            name: self.name@,
            text: self.text@,
            requires_attr: opt_view(self.requires_attr),
        }
    }
}

pub open spec fn func_pointer_pair_err(p: AttrV) -> Option<ErrV> {
    if p.key == "category"@ {
        if p.value == "funcpointer"@ {
                None
            } else {
                Some(malformed_err("category"@, p.value))
            }
    } else if p.key == "requires"@ {
        None
    } else {
        Some(ErrV::UnexpectedAttribute { key: p.key, record_kind: "FuncPointer"@ })
    }
}

pub open spec fn func_pointer_checker() -> spec_fn(AttrV) -> Option<ErrV> {
    |p: AttrV| func_pointer_pair_err(p)
}

/// The attribute keys (and checked attribute values) of this record kind
/// are pairwise distinct text.
proof fn func_pointer_key_facts()
    ensures
        "category"@ != "requires"@,
{
    reveal_strlit("category");
    reveal_strlit("funcpointer");
    reveal_strlit("requires");
    assert("category"@.len() == 8);
    assert("category"@[0] == 'c');
    assert("category"@[1] == 'a');
    assert("category"@[2] == 't');
    assert("category"@[3] == 'e');
    assert("category"@[4] == 'g');
    assert("category"@[5] == 'o');
    assert("category"@[6] == 'r');
    assert("category"@[7] == 'y');
    assert("funcpointer"@.len() == 11);
    assert("funcpointer"@[0] == 'f');
    assert("funcpointer"@[1] == 'u');
    assert("funcpointer"@[2] == 'n');
    assert("funcpointer"@[3] == 'c');
    assert("funcpointer"@[4] == 'p');
    assert("funcpointer"@[5] == 'o');
    assert("funcpointer"@[6] == 'i');
    assert("funcpointer"@[7] == 'n');
    assert("funcpointer"@[8] == 't');
    assert("funcpointer"@[9] == 'e');
    assert("funcpointer"@[10] == 'r');
    assert("requires"@.len() == 8);
    assert("requires"@[0] == 'r');
    assert("requires"@[1] == 'e');
    assert("requires"@[2] == 'q');
    assert("requires"@[3] == 'u');
    assert("requires"@[4] == 'i');
    assert("requires"@[5] == 'r');
    assert("requires"@[6] == 'e');
    assert("requires"@[7] == 's');
}

/// The record built from decoded pairs: every key must be mapped, and
/// the mandatory fields must be set.
pub open spec fn func_pointer_from_pairs(ps: Seq<AttrV>) -> Result<FuncPointerV, ErrV> {
    match first_err_by(ps, func_pointer_checker()) {
        Some(e) => Err(e),
        None => Ok(
            FuncPointerV {
                name: Seq::empty(),
                text: Seq::empty(),
                requires_attr: last_val(ps, "requires"@),
            },
        ),
    }
}

impl FuncPointer {
    /// Builds a `FuncPointer` from decoded attribute pairs.
    #[verifier::loop_isolation(false)]
    pub fn from_pairs(pairs: &Vec<Attr>) -> (r: Result<FuncPointer, ParseError>)
        ensures
            res_view(r) == func_pointer_from_pairs(attrs_view(pairs@)),
    {
        let ghost aps = attrs_view(pairs@);
        let ghost f = func_pointer_checker();
        let mut requires_attr: Option<String> = None;
        let mut idx: usize = 0;
        proof {
            assert(aps.skip(0) =~= aps);
            assert(aps.take(0) =~= Seq::<AttrV>::empty());
        }
        while idx < pairs.len()
            invariant
                idx <= pairs@.len(),
                first_err_by(aps, f) == first_err_by(aps.skip(idx as int), f),
                opt_view(requires_attr) == last_val(aps.take(idx as int), "requires"@),
            decreases pairs@.len() - idx,
        {
            let ghost p = aps[idx as int];
            proof {
                func_pointer_key_facts();
                assert(p == pairs@[idx as int]@);
                assert(aps.skip(idx as int)[0] == p);
                assert(aps.skip(idx as int).drop_first() =~= aps.skip(idx as int + 1));
                assert(aps.take(idx as int + 1).drop_last() =~= aps.take(idx as int));
                assert(aps.take(idx as int + 1).last() == p);
            }
            let a = &pairs[idx];
            if str_eq(a.key.as_str(), "category") {
                if !str_eq(a.value.as_str(), "funcpointer") {
                    return Err(ParseError::MalformedAttributeValue {
                        key: a.key.clone(),
                        raw_value: a.value.clone(),
                    });
                }
            } else if str_eq(a.key.as_str(), "requires") {
                requires_attr = Some(a.value.clone());
            } else {
                return Err(ParseError::UnexpectedAttribute {
                    key: a.key.clone(),
                    record_kind: "FuncPointer".to_owned(),
                });
            }
            idx += 1;
        }
        proof {
            assert(aps.skip(pairs@.len() as int) =~= Seq::<AttrV>::empty());
            assert(aps.take(pairs@.len() as int) =~= aps);
        }
        Ok(FuncPointer {
            name: String::new(),
            text: String::new(),
            requires_attr,
        })
    }

    /// Builds a `FuncPointer` from a tag's raw attribute text.
    pub fn from_attrs(attrs: &str) -> (r: Result<FuncPointer, ParseError>)
        ensures
            res_view(r) == func_pointer_from_pairs(attrs_of(attrs@)),
    {
        let pairs = decode_attrs(attrs);
        FuncPointer::from_pairs(&pairs)
    }
}

/// Permuting the tag's attribute pairs never changes the
/// record built, as long as the pair list is valid: keys all distinct and
/// the record accepted.
pub proof fn lemma_func_pointer_attr_order(ps1: Seq<AttrV>, ps2: Seq<AttrV>)
    requires
        keys_distinct(ps1),
        ps1.to_multiset() == ps2.to_multiset(),
        func_pointer_from_pairs(ps1) is Ok,
    ensures
        func_pointer_from_pairs(ps2) == func_pointer_from_pairs(ps1),
{
    lemma_first_err_by_permutation_none(ps1, ps2, func_pointer_checker());
    lemma_last_val_permutation(ps1, ps2, "category"@);
    lemma_last_val_permutation(ps1, ps2, "requires"@);
}

/// A C struct type and its ordered members.
#[derive(Debug, Clone, PartialEq, Eq)]
pub struct Structure {
    pub name: String,
    pub members: Vec<Member>,
    pub returned_only: bool,
    pub struct_extends: Option<String>,
    pub comment: Option<String>,
    pub allow_duplicate: bool,
}

/// The mathematical value of a [`Structure`].
pub ghost struct StructureV {
    pub name: Seq<char>,
    pub members: Seq<MemberV>,
    pub returned_only: bool,
    pub struct_extends: Option<Seq<char>>,
    pub comment: Option<Seq<char>>,
    pub allow_duplicate: bool,
}

impl View for Structure {
    type V = StructureV;

    open spec fn view(&self) -> StructureV {
        StructureV {
            name: self.name@,
            members: seq_view(self.members@),
            returned_only: self.returned_only,
            struct_extends: opt_view(self.struct_extends),
            comment: opt_view(self.comment),
            allow_duplicate: self.allow_duplicate,
        }
    }
}

pub open spec fn structure_pair_err(p: AttrV) -> Option<ErrV> {
    if p.key == "category"@ {
        if p.value == "struct"@ {
                None
            } else {
                Some(malformed_err("category"@, p.value))
            }
    } else if p.key == "name"@ {
        None
    } else if p.key == "returnedonly"@ {
        if p.value == "true"@ {
                None
            } else {
                Some(malformed_err("returnedonly"@, p.value))
            }
    } else if p.key == "structextends"@ {
        None
    } else if p.key == "comment"@ {
        None
    } else if p.key == "allowduplicate"@ {
        if p.value == "true"@ || p.value == "false"@ {
                None
            } else {
                Some(malformed_err("allowduplicate"@, p.value))
            }
    } else {
        Some(ErrV::UnexpectedAttribute { key: p.key, record_kind: "Structure"@ })
    }
}

pub open spec fn structure_checker() -> spec_fn(AttrV) -> Option<ErrV> {
    |p: AttrV| structure_pair_err(p)
}

/// The attribute keys (and checked attribute values) of this record kind
/// are pairwise distinct text.
proof fn structure_key_facts()
    ensures
        "category"@ != "name"@,
        "category"@ != "returnedonly"@,
        "category"@ != "structextends"@,
        "category"@ != "comment"@,
        "category"@ != "allowduplicate"@,
        "name"@ != "returnedonly"@,
        "name"@ != "structextends"@,
        "name"@ != "comment"@,
        "name"@ != "allowduplicate"@,
        "returnedonly"@ != "structextends"@,
        "returnedonly"@ != "comment"@,
        "returnedonly"@ != "allowduplicate"@,
        "structextends"@ != "comment"@,
        "structextends"@ != "allowduplicate"@,
        "comment"@ != "allowduplicate"@,
        "true"@ != "false"@,
{
    reveal_strlit("allowduplicate");
    reveal_strlit("category");
    reveal_strlit("comment");
    reveal_strlit("false");
    reveal_strlit("name");
    reveal_strlit("returnedonly");
    reveal_strlit("struct");
    reveal_strlit("structextends");
    reveal_strlit("true");
    assert("allowduplicate"@.len() == 14);
    assert("allowduplicate"@[0] == 'a');
    assert("allowduplicate"@[1] == 'l');
    assert("allowduplicate"@[2] == 'l');
    assert("allowduplicate"@[3] == 'o');
    assert("allowduplicate"@[4] == 'w');
    assert("allowduplicate"@[5] == 'd');
    assert("allowduplicate"@[6] == 'u');
    assert("allowduplicate"@[7] == 'p');
    assert("allowduplicate"@[8] == 'l');
    assert("allowduplicate"@[9] == 'i');
    assert("allowduplicate"@[10] == 'c');
    assert("allowduplicate"@[11] == 'a');
    assert("allowduplicate"@[12] == 't');
    assert("allowduplicate"@[13] == 'e');
    assert("category"@.len() == 8);
    assert("category"@[0] == 'c');
    assert("category"@[1] == 'a');
    assert("category"@[2] == 't');
    assert("category"@[3] == 'e');
    assert("category"@[4] == 'g');
    assert("category"@[5] == 'o');
    assert("category"@[6] == 'r');
    assert("category"@[7] == 'y');
    assert("comment"@.len() == 7);
    assert("comment"@[0] == 'c');
    assert("comment"@[1] == 'o');
    assert("comment"@[2] == 'm');
    assert("comment"@[3] == 'm');
    assert("comment"@[4] == 'e');
    assert("comment"@[5] == 'n');
    assert("comment"@[6] == 't');
    assert("false"@.len() == 5);
    assert("false"@[0] == 'f');
    assert("false"@[1] == 'a');
    assert("false"@[2] == 'l');
    assert("false"@[3] == 's');
    assert("false"@[4] == 'e');
    assert("name"@.len() == 4);
    assert("name"@[0] == 'n');
    assert("name"@[1] == 'a');
    assert("name"@[2] == 'm');
    assert("name"@[3] == 'e');
    assert("returnedonly"@.len() == 12);
    assert("returnedonly"@[0] == 'r');
    assert("returnedonly"@[1] == 'e');
    assert("returnedonly"@[2] == 't');
    assert("returnedonly"@[3] == 'u');
    assert("returnedonly"@[4] == 'r');
    assert("returnedonly"@[5] == 'n');
    assert("returnedonly"@[6] == 'e');
    assert("returnedonly"@[7] == 'd');
    assert("returnedonly"@[8] == 'o');
    assert("returnedonly"@[9] == 'n');
    assert("returnedonly"@[10] == 'l');
    assert("returnedonly"@[11] == 'y');
    assert("struct"@.len() == 6);
    assert("struct"@[0] == 's');
    assert("struct"@[1] == 't');
    assert("struct"@[2] == 'r');
    assert("struct"@[3] == 'u');
    assert("struct"@[4] == 'c');
    assert("struct"@[5] == 't');
    assert("structextends"@.len() == 13);
    assert("structextends"@[0] == 's');
    assert("structextends"@[1] == 't');
    assert("structextends"@[2] == 'r');
    assert("structextends"@[3] == 'u');
    assert("structextends"@[4] == 'c');
    assert("structextends"@[5] == 't');
    assert("structextends"@[6] == 'e');
    assert("structextends"@[7] == 'x');
    assert("structextends"@[8] == 't');
    assert("structextends"@[9] == 'e');
    assert("structextends"@[10] == 'n');
    assert("structextends"@[11] == 'd');
    assert("structextends"@[12] == 's');
    assert("true"@.len() == 4);
    assert("true"@[0] == 't');
    assert("true"@[1] == 'r');
    assert("true"@[2] == 'u');
    assert("true"@[3] == 'e');
}

/// The record built from decoded pairs: every key must be mapped, and
/// the mandatory fields must be set.
pub open spec fn structure_from_pairs(ps: Seq<AttrV>) -> Result<StructureV, ErrV> {
    match first_err_by(ps, structure_checker()) {
        Some(e) => Err(e),
        None => if or_empty(last_val(ps, "name"@)).len() == 0 {
            Err(missing_err("name"@, "Structure"@))
        } else {
            Ok(
                StructureV {
                    name: or_empty(last_val(ps, "name"@)),
                    members: Seq::empty(),
                    returned_only: found(ps, "returnedonly"@),
                    struct_extends: last_val(ps, "structextends"@),
                    comment: last_val(ps, "comment"@),
                    allow_duplicate: has_pair(ps, "allowduplicate"@, "true"@),
                },
            )
        },
    }
}

impl Structure {
    /// Builds a `Structure` from decoded attribute pairs.
    #[verifier::loop_isolation(false)]
    pub fn from_pairs(pairs: &Vec<Attr>) -> (r: Result<Structure, ParseError>)
        ensures
            res_view(r) == structure_from_pairs(attrs_view(pairs@)),
    {
        let ghost aps = attrs_view(pairs@);
        let ghost f = structure_checker();
        let mut name: Option<String> = None;
        let mut returned_only: bool = false;
        let mut struct_extends: Option<String> = None;
        let mut comment: Option<String> = None;
        let mut allow_duplicate: bool = false;
        let mut idx: usize = 0;
        proof {
            assert(aps.skip(0) =~= aps);
            assert(aps.take(0) =~= Seq::<AttrV>::empty());
        }
        while idx < pairs.len()
            invariant
                idx <= pairs@.len(),
                first_err_by(aps, f) == first_err_by(aps.skip(idx as int), f),
                opt_view(name) == last_val(aps.take(idx as int), "name"@),
                returned_only == found(aps.take(idx as int), "returnedonly"@),
                opt_view(struct_extends) == last_val(aps.take(idx as int), "structextends"@),
                opt_view(comment) == last_val(aps.take(idx as int), "comment"@),
                allow_duplicate == has_pair(aps.take(idx as int), "allowduplicate"@, "true"@),
            decreases pairs@.len() - idx,
        {
            let ghost p = aps[idx as int];
            proof {
                structure_key_facts();
                assert(p == pairs@[idx as int]@);
                assert(aps.skip(idx as int)[0] == p);
                assert(aps.skip(idx as int).drop_first() =~= aps.skip(idx as int + 1));
                assert(aps.take(idx as int + 1).drop_last() =~= aps.take(idx as int));
                assert(aps.take(idx as int + 1).last() == p);
            }
            let a = &pairs[idx];
            if str_eq(a.key.as_str(), "category") {
                if !str_eq(a.value.as_str(), "struct") {
                    return Err(ParseError::MalformedAttributeValue {
                        key: a.key.clone(),
                        raw_value: a.value.clone(),
                    });
                }
            } else if str_eq(a.key.as_str(), "name") {
                name = Some(a.value.clone());
            } else if str_eq(a.key.as_str(), "returnedonly") {
                if str_eq(a.value.as_str(), "true") {
                    returned_only = true;
                } else {
                    return Err(ParseError::MalformedAttributeValue {
                        key: a.key.clone(),
                        raw_value: a.value.clone(),
                    });
                }
            } else if str_eq(a.key.as_str(), "structextends") {
                struct_extends = Some(a.value.clone());
            } else if str_eq(a.key.as_str(), "comment") {
                comment = Some(a.value.clone());
            } else if str_eq(a.key.as_str(), "allowduplicate") {
                if str_eq(a.value.as_str(), "true") {
                    allow_duplicate = true;
                } else if str_eq(a.value.as_str(), "false") {
                } else {
                    return Err(ParseError::MalformedAttributeValue {
                        key: a.key.clone(),
                        raw_value: a.value.clone(),
                    });
                }
            } else {
                return Err(ParseError::UnexpectedAttribute {
                    key: a.key.clone(),
                    record_kind: "Structure".to_owned(),
                });
            }
            idx += 1;
        }
        proof {
            assert(aps.skip(pairs@.len() as int) =~= Seq::<AttrV>::empty());
            assert(aps.take(pairs@.len() as int) =~= aps);
        }
        let name = match name {
            Some(v) => v,
            None => {
                return Err(ParseError::MissingRequiredAttribute {
                    name: "name".to_owned(),
                    record_kind: "Structure".to_owned(),
                });
            },
        };
        if name.as_str().is_empty() {
            return Err(ParseError::MissingRequiredAttribute {
                name: "name".to_owned(),
                record_kind: "Structure".to_owned(),
            });
        }
        proof {
            assert(seq_view(Seq::<Member>::empty()) =~= Seq::<MemberV>::empty());
        }
        Ok(Structure {
            name,
            members: Vec::new(),
            returned_only,
            struct_extends,
            comment,
            allow_duplicate,
        })
    }

    /// Builds a `Structure` from a tag's raw attribute text.
    pub fn from_attrs(attrs: &str) -> (r: Result<Structure, ParseError>)
        ensures
            res_view(r) == structure_from_pairs(attrs_of(attrs@)),
    {
        let pairs = decode_attrs(attrs);
        Structure::from_pairs(&pairs)
    }
}

/// Permuting the tag's attribute pairs never changes the
/// record built, as long as the pair list is valid: keys all distinct and
/// the record accepted.
pub proof fn lemma_structure_attr_order(ps1: Seq<AttrV>, ps2: Seq<AttrV>)
    requires
        keys_distinct(ps1),
        ps1.to_multiset() == ps2.to_multiset(),
        structure_from_pairs(ps1) is Ok,
    ensures
        structure_from_pairs(ps2) == structure_from_pairs(ps1),
{
    lemma_first_err_by_permutation_none(ps1, ps2, structure_checker());
    lemma_last_val_permutation(ps1, ps2, "category"@);
    lemma_last_val_permutation(ps1, ps2, "name"@);
    lemma_last_val_permutation(ps1, ps2, "returnedonly"@);
    lemma_last_val_permutation(ps1, ps2, "structextends"@);
    lemma_last_val_permutation(ps1, ps2, "comment"@);
    lemma_last_val_permutation(ps1, ps2, "allowduplicate"@);
    lemma_has_pair_permutation(ps1, ps2, "allowduplicate"@, "true"@);
}

/// One field of a struct or union, with its inferred type shape.
#[derive(Debug, Clone, PartialEq, Eq)]
pub struct Member {
    pub name: String,
    pub ty: String,
    pub ty_variant: TypeVariant,
    pub optional: Option<String>,
    pub no_auto_validity: bool,
    pub limit_type: Option<String>,
    pub comment: Option<String>,
    pub value: Option<String>,
    pub len: Option<String>,
    pub alt_len: Option<String>,
    pub deprecated: Option<String>,
    pub api: Option<String>,
    pub object_type: Option<String>,
    pub extern_sync: Option<String>,
    pub selection: Option<String>,
    pub selector: Option<String>,
    pub bitfields: Option<u32>,
}

/// The mathematical value of a [`Member`].
pub ghost struct MemberV {
    pub name: Seq<char>,
    pub ty: Seq<char>,
    pub ty_variant: TypeVariantV,
    pub optional: Option<Seq<char>>,
    pub no_auto_validity: bool,
    pub limit_type: Option<Seq<char>>,
    pub comment: Option<Seq<char>>,
    pub value: Option<Seq<char>>,
    pub len: Option<Seq<char>>,
    pub alt_len: Option<Seq<char>>,
    pub deprecated: Option<Seq<char>>,
    pub api: Option<Seq<char>>,
    pub object_type: Option<Seq<char>>,
    pub extern_sync: Option<Seq<char>>,
    pub selection: Option<Seq<char>>,
    pub selector: Option<Seq<char>>,
    pub bitfields: Option<u32>,
}

impl View for Member {
    type V = MemberV;

    open spec fn view(&self) -> MemberV {
        MemberV {
            name: self.name@,
            ty: self.ty@,
            ty_variant: self.ty_variant@,
            optional: opt_view(self.optional),
            no_auto_validity: self.no_auto_validity,
            limit_type: opt_view(self.limit_type),
            comment: opt_view(self.comment),
            value: opt_view(self.value),
            len: opt_view(self.len),
            alt_len: opt_view(self.alt_len),
            deprecated: opt_view(self.deprecated),
            api: opt_view(self.api),
            object_type: opt_view(self.object_type),
            extern_sync: opt_view(self.extern_sync),
            selection: opt_view(self.selection),
            selector: opt_view(self.selector),
            bitfields: self.bitfields,
        }
    }
}

pub open spec fn member_pair_err(p: AttrV) -> Option<ErrV> {
    if p.key == "optional"@ {
        None
    } else if p.key == "noautovalidity"@ {
        if p.value == "true"@ {
                None
            } else {
                Some(malformed_err("noautovalidity"@, p.value))
            }
    } else if p.key == "limittype"@ {
        None
    } else if p.key == "values"@ {
        if !p.value.contains(',') {
                None
            } else {
                Some(malformed_err("values"@, p.value))
            }
    } else if p.key == "len"@ {
        None
    } else if p.key == "altlen"@ {
        None
    } else if p.key == "deprecated"@ {
        None
    } else if p.key == "api"@ {
        None
    } else if p.key == "objecttype"@ {
        None
    } else if p.key == "externsync"@ {
        None
    } else if p.key == "selection"@ {
        None
    } else if p.key == "selector"@ {
        None
    } else {
        Some(ErrV::UnexpectedAttribute { key: p.key, record_kind: "Member"@ })
    }
}

pub open spec fn member_checker() -> spec_fn(AttrV) -> Option<ErrV> {
    |p: AttrV| member_pair_err(p)
}

/// The attribute keys (and checked attribute values) of this record kind
/// are pairwise distinct text.
proof fn member_key_facts()
    ensures
        "optional"@ != "noautovalidity"@,
        "optional"@ != "limittype"@,
        "optional"@ != "values"@,
        "optional"@ != "len"@,
        "optional"@ != "altlen"@,
        "optional"@ != "deprecated"@,
        "optional"@ != "api"@,
        "optional"@ != "objecttype"@,
        "optional"@ != "externsync"@,
        "optional"@ != "selection"@,
        "optional"@ != "selector"@,
        "noautovalidity"@ != "limittype"@,
        "noautovalidity"@ != "values"@,
        "noautovalidity"@ != "len"@,
        "noautovalidity"@ != "altlen"@,
        "noautovalidity"@ != "deprecated"@,
        "noautovalidity"@ != "api"@,
        "noautovalidity"@ != "objecttype"@,
        "noautovalidity"@ != "externsync"@,
        "noautovalidity"@ != "selection"@,
        "noautovalidity"@ != "selector"@,
        "limittype"@ != "values"@,
        "limittype"@ != "len"@,
        "limittype"@ != "altlen"@,
        "limittype"@ != "deprecated"@,
        "limittype"@ != "api"@,
        "limittype"@ != "objecttype"@,
        "limittype"@ != "externsync"@,
        "limittype"@ != "selection"@,
        "limittype"@ != "selector"@,
        "values"@ != "len"@,
        "values"@ != "altlen"@,
        "values"@ != "deprecated"@,
        "values"@ != "api"@,
        "values"@ != "objecttype"@,
        "values"@ != "externsync"@,
        "values"@ != "selection"@,
        "values"@ != "selector"@,
        "len"@ != "altlen"@,
        "len"@ != "deprecated"@,
        "len"@ != "api"@,
        "len"@ != "objecttype"@,
        "len"@ != "externsync"@,
        "len"@ != "selection"@,
        "len"@ != "selector"@,
        "altlen"@ != "deprecated"@,
        "altlen"@ != "api"@,
        "altlen"@ != "objecttype"@,
        "altlen"@ != "externsync"@,
        "altlen"@ != "selection"@,
        "altlen"@ != "selector"@,
        "deprecated"@ != "api"@,
        "deprecated"@ != "objecttype"@,
        "deprecated"@ != "externsync"@,
        "deprecated"@ != "selection"@,
        "deprecated"@ != "selector"@,
        "api"@ != "objecttype"@,
        "api"@ != "externsync"@,
        "api"@ != "selection"@,
        "api"@ != "selector"@,
        "objecttype"@ != "externsync"@,
        "objecttype"@ != "selection"@,
        "objecttype"@ != "selector"@,
        "externsync"@ != "selection"@,
        "externsync"@ != "selector"@,
        "selection"@ != "selector"@,
{
    reveal_strlit("altlen");
    reveal_strlit("api");
    reveal_strlit("deprecated");
    reveal_strlit("externsync");
    reveal_strlit("len");
    reveal_strlit("limittype");
    reveal_strlit("noautovalidity");
    reveal_strlit("objecttype");
    reveal_strlit("optional");
    reveal_strlit("selection");
    reveal_strlit("selector");
    reveal_strlit("true");
    reveal_strlit("values");
    assert("altlen"@.len() == 6);
    assert("altlen"@[0] == 'a');
    assert("altlen"@[1] == 'l');
    assert("altlen"@[2] == 't');
    assert("altlen"@[3] == 'l');
    assert("altlen"@[4] == 'e');
    assert("altlen"@[5] == 'n');
    assert("api"@.len() == 3);
    assert("api"@[0] == 'a');
    assert("api"@[1] == 'p');
    assert("api"@[2] == 'i');
    assert("deprecated"@.len() == 10);
    assert("deprecated"@[0] == 'd');
    assert("deprecated"@[1] == 'e');
    assert("deprecated"@[2] == 'p');
    assert("deprecated"@[3] == 'r');
    assert("deprecated"@[4] == 'e');
    assert("deprecated"@[5] == 'c');
    assert("deprecated"@[6] == 'a');
    assert("deprecated"@[7] == 't');
    assert("deprecated"@[8] == 'e');
    assert("deprecated"@[9] == 'd');
    assert("externsync"@.len() == 10);
    assert("externsync"@[0] == 'e');
    assert("externsync"@[1] == 'x');
    assert("externsync"@[2] == 't');
    assert("externsync"@[3] == 'e');
    assert("externsync"@[4] == 'r');
    assert("externsync"@[5] == 'n');
    assert("externsync"@[6] == 's');
    assert("externsync"@[7] == 'y');
    assert("externsync"@[8] == 'n');
    assert("externsync"@[9] == 'c');
    assert("len"@.len() == 3);
    assert("len"@[0] == 'l');
    assert("len"@[1] == 'e');
    assert("len"@[2] == 'n');
    assert("limittype"@.len() == 9);
    assert("limittype"@[0] == 'l');
    assert("limittype"@[1] == 'i');
    assert("limittype"@[2] == 'm');
    assert("limittype"@[3] == 'i');
    assert("limittype"@[4] == 't');
    assert("limittype"@[5] == 't');
    assert("limittype"@[6] == 'y');
    assert("limittype"@[7] == 'p');
    assert("limittype"@[8] == 'e');
    assert("noautovalidity"@.len() == 14);
    assert("noautovalidity"@[0] == 'n');
    assert("noautovalidity"@[1] == 'o');
    assert("noautovalidity"@[2] == 'a');
    assert("noautovalidity"@[3] == 'u');
    assert("noautovalidity"@[4] == 't');
    assert("noautovalidity"@[5] == 'o');
    assert("noautovalidity"@[6] == 'v');
    assert("noautovalidity"@[7] == 'a');
    assert("noautovalidity"@[8] == 'l');
    assert("noautovalidity"@[9] == 'i');
    assert("noautovalidity"@[10] == 'd');
    assert("noautovalidity"@[11] == 'i');
    assert("noautovalidity"@[12] == 't');
    assert("noautovalidity"@[13] == 'y');
    assert("objecttype"@.len() == 10);
    assert("objecttype"@[0] == 'o');
    assert("objecttype"@[1] == 'b');
    assert("objecttype"@[2] == 'j');
    assert("objecttype"@[3] == 'e');
    assert("objecttype"@[4] == 'c');
    assert("objecttype"@[5] == 't');
    assert("objecttype"@[6] == 't');
    assert("objecttype"@[7] == 'y');
    assert("objecttype"@[8] == 'p');
    assert("objecttype"@[9] == 'e');
    assert("optional"@.len() == 8);
    assert("optional"@[0] == 'o');
    assert("optional"@[1] == 'p');
    assert("optional"@[2] == 't');
    assert("optional"@[3] == 'i');
    assert("optional"@[4] == 'o');
    assert("optional"@[5] == 'n');
    assert("optional"@[6] == 'a');
    assert("optional"@[7] == 'l');
    assert("selection"@.len() == 9);
    assert("selection"@[0] == 's');
    assert("selection"@[1] == 'e');
    assert("selection"@[2] == 'l');
    assert("selection"@[3] == 'e');
    assert("selection"@[4] == 'c');
    assert("selection"@[5] == 't');
    assert("selection"@[6] == 'i');
    assert("selection"@[7] == 'o');
    assert("selection"@[8] == 'n');
    assert("selector"@.len() == 8);
    assert("selector"@[0] == 's');
    assert("selector"@[1] == 'e');
    assert("selector"@[2] == 'l');
    assert("selector"@[3] == 'e');
    assert("selector"@[4] == 'c');
    assert("selector"@[5] == 't');
    assert("selector"@[6] == 'o');
    assert("selector"@[7] == 'r');
    assert("true"@.len() == 4);
    assert("true"@[0] == 't');
    assert("true"@[1] == 'r');
    assert("true"@[2] == 'u');
    assert("true"@[3] == 'e');
    assert("values"@.len() == 6);
    assert("values"@[0] == 'v');
    assert("values"@[1] == 'a');
    assert("values"@[2] == 'l');
    assert("values"@[3] == 'u');
    assert("values"@[4] == 'e');
    assert("values"@[5] == 's');
}

/// The record built from decoded pairs: every key must be mapped, and
/// the mandatory fields must be set.
pub open spec fn member_from_pairs(ps: Seq<AttrV>) -> Result<MemberV, ErrV> {
    match first_err_by(ps, member_checker()) {
        Some(e) => Err(e),
        None => Ok(
            MemberV {
                name: Seq::empty(),
                ty: Seq::empty(),
                ty_variant: TypeVariantV::Normal,
                optional: last_val(ps, "optional"@),
                no_auto_validity: found(ps, "noautovalidity"@),
                limit_type: last_val(ps, "limittype"@),
                comment: None,
                value: last_val(ps, "values"@),
                len: last_val(ps, "len"@),
                alt_len: last_val(ps, "altlen"@),
                deprecated: last_val(ps, "deprecated"@),
                api: last_val(ps, "api"@),
                object_type: last_val(ps, "objecttype"@),
                extern_sync: last_val(ps, "externsync"@),
                selection: last_val(ps, "selection"@),
                selector: last_val(ps, "selector"@),
                bitfields: None,
            },
        ),
    }
}

impl Member {
    /// Builds a `Member` from decoded attribute pairs.
    #[verifier::loop_isolation(false)]
    pub fn from_pairs(pairs: &Vec<Attr>) -> (r: Result<Member, ParseError>)
        ensures
            res_view(r) == member_from_pairs(attrs_view(pairs@)),
    {
        let ghost aps = attrs_view(pairs@);
        let ghost f = member_checker();
        let mut optional: Option<String> = None;
        let mut no_auto_validity: bool = false;
        let mut limit_type: Option<String> = None;
        let mut value: Option<String> = None;
        let mut len: Option<String> = None;
        let mut alt_len: Option<String> = None;
        let mut deprecated: Option<String> = None;
        let mut api: Option<String> = None;
        let mut object_type: Option<String> = None;
        let mut extern_sync: Option<String> = None;
        let mut selection: Option<String> = None;
        let mut selector: Option<String> = None;
        let mut idx: usize = 0;
        proof {
            assert(aps.skip(0) =~= aps);
            assert(aps.take(0) =~= Seq::<AttrV>::empty());
        }
        while idx < pairs.len()
            invariant
                idx <= pairs@.len(),
                first_err_by(aps, f) == first_err_by(aps.skip(idx as int), f),
                opt_view(optional) == last_val(aps.take(idx as int), "optional"@),
                no_auto_validity == found(aps.take(idx as int), "noautovalidity"@),
                opt_view(limit_type) == last_val(aps.take(idx as int), "limittype"@),
                opt_view(value) == last_val(aps.take(idx as int), "values"@),
                opt_view(len) == last_val(aps.take(idx as int), "len"@),
                opt_view(alt_len) == last_val(aps.take(idx as int), "altlen"@),
                opt_view(deprecated) == last_val(aps.take(idx as int), "deprecated"@),
                opt_view(api) == last_val(aps.take(idx as int), "api"@),
                opt_view(object_type) == last_val(aps.take(idx as int), "objecttype"@),
                opt_view(extern_sync) == last_val(aps.take(idx as int), "externsync"@),
                opt_view(selection) == last_val(aps.take(idx as int), "selection"@),
                opt_view(selector) == last_val(aps.take(idx as int), "selector"@),
            decreases pairs@.len() - idx,
        {
            let ghost p = aps[idx as int];
            proof {
                member_key_facts();
                assert(p == pairs@[idx as int]@);
                assert(aps.skip(idx as int)[0] == p);
                assert(aps.skip(idx as int).drop_first() =~= aps.skip(idx as int + 1));
                assert(aps.take(idx as int + 1).drop_last() =~= aps.take(idx as int));
                assert(aps.take(idx as int + 1).last() == p);
            }
            let a = &pairs[idx];
            if str_eq(a.key.as_str(), "optional") {
                optional = Some(a.value.clone());
            } else if str_eq(a.key.as_str(), "noautovalidity") {
                if str_eq(a.value.as_str(), "true") {
                    no_auto_validity = true;
                } else {
                    return Err(ParseError::MalformedAttributeValue {
                        key: a.key.clone(),
                        raw_value: a.value.clone(),
                    });
                }
            } else if str_eq(a.key.as_str(), "limittype") {
                limit_type = Some(a.value.clone());
            } else if str_eq(a.key.as_str(), "values") {
                if str_contains_char(a.value.as_str(), ',') {
                    return Err(ParseError::MalformedAttributeValue {
                        key: a.key.clone(),
                        raw_value: a.value.clone(),
                    });
                }
                value = Some(a.value.clone());
            } else if str_eq(a.key.as_str(), "len") {
                len = Some(a.value.clone());
            } else if str_eq(a.key.as_str(), "altlen") {
                alt_len = Some(a.value.clone());
            } else if str_eq(a.key.as_str(), "deprecated") {
                deprecated = Some(a.value.clone());
            } else if str_eq(a.key.as_str(), "api") {
                api = Some(a.value.clone());
            } else if str_eq(a.key.as_str(), "objecttype") {
                object_type = Some(a.value.clone());
            } else if str_eq(a.key.as_str(), "externsync") {
                extern_sync = Some(a.value.clone());
            } else if str_eq(a.key.as_str(), "selection") {
                selection = Some(a.value.clone());
            } else if str_eq(a.key.as_str(), "selector") {
                selector = Some(a.value.clone());
            } else {
                return Err(ParseError::UnexpectedAttribute {
                    key: a.key.clone(),
                    record_kind: "Member".to_owned(),
                });
            }
            idx += 1;
        }
        proof {
            assert(aps.skip(pairs@.len() as int) =~= Seq::<AttrV>::empty());
            assert(aps.take(pairs@.len() as int) =~= aps);
        }
        Ok(Member {
            name: String::new(),
            ty: String::new(),
            ty_variant: TypeVariant::Normal,
            optional,
            no_auto_validity,
            limit_type,
            comment: None,
            value,
            len,
            alt_len,
            deprecated,
            api,
            object_type,
            extern_sync,
            selection,
            selector,
            bitfields: None,
        })
    }

    /// Builds a `Member` from a tag's raw attribute text.
    pub fn from_attrs(attrs: &str) -> (r: Result<Member, ParseError>)
        ensures
            res_view(r) == member_from_pairs(attrs_of(attrs@)),
    {
        let pairs = decode_attrs(attrs);
        Member::from_pairs(&pairs)
    }
}

/// Permuting the tag's attribute pairs never changes the
/// record built, as long as the pair list is valid: keys all distinct and
/// the record accepted.
pub proof fn lemma_member_attr_order(ps1: Seq<AttrV>, ps2: Seq<AttrV>)
    requires
        keys_distinct(ps1),
        ps1.to_multiset() == ps2.to_multiset(),
        member_from_pairs(ps1) is Ok,
    ensures
        member_from_pairs(ps2) == member_from_pairs(ps1),
{
    lemma_first_err_by_permutation_none(ps1, ps2, member_checker());
    lemma_last_val_permutation(ps1, ps2, "optional"@);
    lemma_last_val_permutation(ps1, ps2, "noautovalidity"@);
    lemma_last_val_permutation(ps1, ps2, "limittype"@);
    lemma_last_val_permutation(ps1, ps2, "values"@);
    lemma_last_val_permutation(ps1, ps2, "len"@);
    lemma_last_val_permutation(ps1, ps2, "altlen"@);
    lemma_last_val_permutation(ps1, ps2, "deprecated"@);
    lemma_last_val_permutation(ps1, ps2, "api"@);
    lemma_last_val_permutation(ps1, ps2, "objecttype"@);
    lemma_last_val_permutation(ps1, ps2, "externsync"@);
    lemma_last_val_permutation(ps1, ps2, "selection"@);
    lemma_last_val_permutation(ps1, ps2, "selector"@);
}

/// A C union type and its ordered members.
#[derive(Debug, Clone, PartialEq, Eq)]
pub struct Union {
    pub name: String,
    pub members: Vec<Member>,
    pub comment: Option<String>,
    pub returned_only: bool,
}

/// The mathematical value of a [`Union`].
pub ghost struct UnionV {
    pub name: Seq<char>,
    pub members: Seq<MemberV>,
    pub comment: Option<Seq<char>>,
    pub returned_only: bool,
}

impl View for Union {
    type V = UnionV;

    open spec fn view(&self) -> UnionV {
        UnionV {
            name: self.name@,
            members: seq_view(self.members@),
            comment: opt_view(self.comment),
            returned_only: self.returned_only,
        }
    }
}

pub open spec fn union_pair_err(p: AttrV) -> Option<ErrV> {
    if p.key == "category"@ {
        if p.value == "union"@ {
                None
            } else {
                Some(malformed_err("category"@, p.value))
            }
    } else if p.key == "name"@ {
        None
    } else if p.key == "comment"@ {
        None
    } else if p.key == "returnedonly"@ {
        if p.value == "true"@ {
                None
            } else {
                Some(malformed_err("returnedonly"@, p.value))
            }
    } else {
        Some(ErrV::UnexpectedAttribute { key: p.key, record_kind: "Union"@ })
    }
}

pub open spec fn union_checker() -> spec_fn(AttrV) -> Option<ErrV> {
    |p: AttrV| union_pair_err(p)
}

/// The attribute keys (and checked attribute values) of this record kind
/// are pairwise distinct text.
proof fn union_key_facts()
    ensures
        "category"@ != "name"@,
        "category"@ != "comment"@,
        "category"@ != "returnedonly"@,
        "name"@ != "comment"@,
        "name"@ != "returnedonly"@,
        "comment"@ != "returnedonly"@,
{
    reveal_strlit("category");
    reveal_strlit("comment");
    reveal_strlit("name");
    reveal_strlit("returnedonly");
    reveal_strlit("true");
    reveal_strlit("union");
    assert("category"@.len() == 8);
    assert("category"@[0] == 'c');
    assert("category"@[1] == 'a');
    assert("category"@[2] == 't');
    assert("category"@[3] == 'e');
    assert("category"@[4] == 'g');
    assert("category"@[5] == 'o');
    assert("category"@[6] == 'r');
    assert("category"@[7] == 'y');
    assert("comment"@.len() == 7);
    assert("comment"@[0] == 'c');
    assert("comment"@[1] == 'o');
    assert("comment"@[2] == 'm');
    assert("comment"@[3] == 'm');
    assert("comment"@[4] == 'e');
    assert("comment"@[5] == 'n');
    assert("comment"@[6] == 't');
    assert("name"@.len() == 4);
    assert("name"@[0] == 'n');
    assert("name"@[1] == 'a');
    assert("name"@[2] == 'm');
    assert("name"@[3] == 'e');
    assert("returnedonly"@.len() == 12);
    assert("returnedonly"@[0] == 'r');
    assert("returnedonly"@[1] == 'e');
    assert("returnedonly"@[2] == 't');
    assert("returnedonly"@[3] == 'u');
    assert("returnedonly"@[4] == 'r');
    assert("returnedonly"@[5] == 'n');
    assert("returnedonly"@[6] == 'e');
    assert("returnedonly"@[7] == 'd');
    assert("returnedonly"@[8] == 'o');
    assert("returnedonly"@[9] == 'n');
    assert("returnedonly"@[10] == 'l');
    assert("returnedonly"@[11] == 'y');
    assert("true"@.len() == 4);
    assert("true"@[0] == 't');
    assert("true"@[1] == 'r');
    assert("true"@[2] == 'u');
    assert("true"@[3] == 'e');
    assert("union"@.len() == 5);
    assert("union"@[0] == 'u');
    assert("union"@[1] == 'n');
    assert("union"@[2] == 'i');
    assert("union"@[3] == 'o');
    assert("union"@[4] == 'n');
}

/// The record built from decoded pairs: every key must be mapped, and
/// the mandatory fields must be set.
pub open spec fn union_from_pairs(ps: Seq<AttrV>) -> Result<UnionV, ErrV> {
    match first_err_by(ps, union_checker()) {
        Some(e) => Err(e),
        None => if or_empty(last_val(ps, "name"@)).len() == 0 {
            Err(missing_err("name"@, "Union"@))
        } else {
            Ok(
                UnionV {
                    name: or_empty(last_val(ps, "name"@)),
                    members: Seq::empty(),
                    comment: last_val(ps, "comment"@),
                    returned_only: found(ps, "returnedonly"@),
                },
            )
        },
    }
}

impl Union {
    /// Builds a `Union` from decoded attribute pairs.
    #[verifier::loop_isolation(false)]
    pub fn from_pairs(pairs: &Vec<Attr>) -> (r: Result<Union, ParseError>)
        ensures
            res_view(r) == union_from_pairs(attrs_view(pairs@)),
    {
        let ghost aps = attrs_view(pairs@);
        let ghost f = union_checker();
        let mut name: Option<String> = None;
        let mut comment: Option<String> = None;
        let mut returned_only: bool = false;
        let mut idx: usize = 0;
        proof {
            assert(aps.skip(0) =~= aps);
            assert(aps.take(0) =~= Seq::<AttrV>::empty());
        }
        while idx < pairs.len()
            invariant
                idx <= pairs@.len(),
                first_err_by(aps, f) == first_err_by(aps.skip(idx as int), f),
                opt_view(name) == last_val(aps.take(idx as int), "name"@),
                opt_view(comment) == last_val(aps.take(idx as int), "comment"@),
                returned_only == found(aps.take(idx as int), "returnedonly"@),
            decreases pairs@.len() - idx,
        {
            let ghost p = aps[idx as int];
            proof {
                union_key_facts();
                assert(p == pairs@[idx as int]@);
                assert(aps.skip(idx as int)[0] == p);
                assert(aps.skip(idx as int).drop_first() =~= aps.skip(idx as int + 1));
                assert(aps.take(idx as int + 1).drop_last() =~= aps.take(idx as int));
                assert(aps.take(idx as int + 1).last() == p);
            }
            let a = &pairs[idx];
            if str_eq(a.key.as_str(), "category") {
                if !str_eq(a.value.as_str(), "union") {
                    return Err(ParseError::MalformedAttributeValue {
                        key: a.key.clone(),
                        raw_value: a.value.clone(),
                    });
                }
            } else if str_eq(a.key.as_str(), "name") {
                name = Some(a.value.clone());
            } else if str_eq(a.key.as_str(), "comment") {
                comment = Some(a.value.clone());
            } else if str_eq(a.key.as_str(), "returnedonly") {
                if str_eq(a.value.as_str(), "true") {
                    returned_only = true;
                } else {
                    return Err(ParseError::MalformedAttributeValue {
                        key: a.key.clone(),
                        raw_value: a.value.clone(),
                    });
                }
            } else {
                return Err(ParseError::UnexpectedAttribute {
                    key: a.key.clone(),
                    record_kind: "Union".to_owned(),
                });
            }
            idx += 1;
        }
        proof {
            assert(aps.skip(pairs@.len() as int) =~= Seq::<AttrV>::empty());
            assert(aps.take(pairs@.len() as int) =~= aps);
        }
        let name = match name {
            Some(v) => v,
            None => {
                return Err(ParseError::MissingRequiredAttribute {
                    name: "name".to_owned(),
                    record_kind: "Union".to_owned(),
                });
            },
        };
        if name.as_str().is_empty() {
            return Err(ParseError::MissingRequiredAttribute {
                name: "name".to_owned(),
                record_kind: "Union".to_owned(),
            });
        }
        proof {
            assert(seq_view(Seq::<Member>::empty()) =~= Seq::<MemberV>::empty());
        }
        Ok(Union {
            name,
            members: Vec::new(),
            comment,
            returned_only,
        })
    }

    /// Builds a `Union` from a tag's raw attribute text.
    pub fn from_attrs(attrs: &str) -> (r: Result<Union, ParseError>)
        ensures
            res_view(r) == union_from_pairs(attrs_of(attrs@)),
    {
        let pairs = decode_attrs(attrs);
        Union::from_pairs(&pairs)
    }
}

/// Permuting the tag's attribute pairs never changes the
/// record built, as long as the pair list is valid: keys all distinct and
/// the record accepted.
pub proof fn lemma_union_attr_order(ps1: Seq<AttrV>, ps2: Seq<AttrV>)
    requires
        keys_distinct(ps1),
        ps1.to_multiset() == ps2.to_multiset(),
        union_from_pairs(ps1) is Ok,
    ensures
        union_from_pairs(ps2) == union_from_pairs(ps1),
{
    lemma_first_err_by_permutation_none(ps1, ps2, union_checker());
    lemma_last_val_permutation(ps1, ps2, "category"@);
    lemma_last_val_permutation(ps1, ps2, "name"@);
    lemma_last_val_permutation(ps1, ps2, "comment"@);
    lemma_last_val_permutation(ps1, ps2, "returnedonly"@);
}

/// A type declaration.
#[derive(Debug, Clone, PartialEq, Eq)]
pub enum TypeEntry {
    Include(Include),
    ExternType(ExternType),
    CppDefine(CppDefine),
    BaseType(BaseType),
    Bitmask(Bitmask),
    TypeAlias(TypeAlias),
    Handle(Handle),
    Enumeration(Enumeration),
    FuncPointer(FuncPointer),
    Structure(Structure),
    Union(Union),
}

/// The mathematical value of a [`TypeEntry`].
pub ghost enum TypeEntryV {
    Include(IncludeV),
    ExternType(ExternTypeV),
    CppDefine(CppDefineV),
    BaseType(BaseTypeV),
    Bitmask(BitmaskV),
    TypeAlias(TypeAliasV),
    Handle(HandleV),
    Enumeration(EnumerationV),
    FuncPointer(FuncPointerV),
    Structure(StructureV),
    Union(UnionV),
}

impl View for TypeEntry {
    type V = TypeEntryV;

    open spec fn view(&self) -> TypeEntryV {
        match self {
            TypeEntry::Include(x) => TypeEntryV::Include(x@),
            TypeEntry::ExternType(x) => TypeEntryV::ExternType(x@),
            TypeEntry::CppDefine(x) => TypeEntryV::CppDefine(x@),
            TypeEntry::BaseType(x) => TypeEntryV::BaseType(x@),
            TypeEntry::Bitmask(x) => TypeEntryV::Bitmask(x@),
            TypeEntry::TypeAlias(x) => TypeEntryV::TypeAlias(x@),
            TypeEntry::Handle(x) => TypeEntryV::Handle(x@),
            TypeEntry::Enumeration(x) => TypeEntryV::Enumeration(x@),
            TypeEntry::FuncPointer(x) => TypeEntryV::FuncPointer(x@),
            TypeEntry::Structure(x) => TypeEntryV::Structure(x@),
            TypeEntry::Union(x) => TypeEntryV::Union(x@),
        }
    }
}

/// The name of a type entry's value, whatever its category.
pub open spec fn spec_type_entry_name(t: TypeEntryV) -> Seq<char> {
    match t {
        TypeEntryV::Include(x) => x.name,
        TypeEntryV::ExternType(x) => x.name,
        TypeEntryV::CppDefine(x) => x.name,
        TypeEntryV::BaseType(x) => x.name,
        TypeEntryV::Bitmask(x) => x.name,
        TypeEntryV::TypeAlias(x) => x.name,
        TypeEntryV::Handle(x) => x.name,
        TypeEntryV::Enumeration(x) => x.name,
        TypeEntryV::FuncPointer(x) => x.name,
        TypeEntryV::Structure(x) => x.name,
        TypeEntryV::Union(x) => x.name,
    }
}

impl TypeEntry {
    /// The name of the declared type, whatever its category.
    pub fn name(&self) -> (r: &String)
        ensures
            r@ == spec_type_entry_name(self@),
    {
        match self {
            TypeEntry::Include(x) => &x.name,
            TypeEntry::ExternType(x) => &x.name,
            TypeEntry::CppDefine(x) => &x.name,
            TypeEntry::BaseType(x) => &x.name,
            TypeEntry::Bitmask(x) => &x.name,
            TypeEntry::TypeAlias(x) => &x.name,
            TypeEntry::Handle(x) => &x.name,
            TypeEntry::Enumeration(x) => &x.name,
            TypeEntry::FuncPointer(x) => &x.name,
            TypeEntry::Structure(x) => &x.name,
            TypeEntry::Union(x) => &x.name,
        }
    }
}

/// The qualifier phase of a member: leading `struct`, `const` and
/// `const struct` text tokens up to the `<type>` sub-element, whose text is
/// the base type name.
pub open spec fn parse_member_qualifier(ev: Seq<EventV>, i: int, m: MemberV) -> Result<
    (MemberV, int),
    ErrV,
>
    decreases ev.len() - i,
{
    if i < 0 || i >= ev.len() {
        Err(end_err("member"@))
    } else {
        match ev[i] {
            EventV::Text { text } => if text == "struct"@ {
                parse_member_qualifier(ev, i + 1, m)
            } else if text == "const"@ || text == "const struct"@ {
                parse_member_qualifier(
                    ev,
                    i + 1,
                    MemberV { ty_variant: TypeVariantV::ConstPtr, ..m },
                )
            } else {
                Err(shape_err(text))
            },
            EventV::Start { name, attrs } => if name == "type"@ && attrs.len() == 0 {
                match spec_expect_text(ev, i + 1, "member"@) {
                    Ok(t) => match spec_expect_end(ev, i + 2, "type"@, "member"@) {
                        Ok(j) => Ok((MemberV { ty: t, ..m }, j)),
                        Err(e) => Err(e),
                    },
                    Err(e) => Err(e),
                }
            } else {
                Err(shape_err(name))
            },
            e => Err(shape_err(ev_tag(e))),
        }
    }
}

/// The declarator phase of a member: pointer markers up to the `<name>`
/// sub-element, whose text is the field name.
pub open spec fn parse_member_declarator(ev: Seq<EventV>, i: int, m: MemberV) -> Result<
    (MemberV, int),
    ErrV,
>
    decreases ev.len() - i,
{
    if i < 0 || i >= ev.len() {
        Err(end_err("member"@))
    } else {
        match ev[i] {
            EventV::Text { text } => if text == "*"@ && m.ty_variant == TypeVariantV::Normal {
                parse_member_declarator(ev, i + 1, MemberV { ty_variant: TypeVariantV::MutPtr, ..m })
            } else if text == "*"@ && m.ty_variant == TypeVariantV::ConstPtr {
                parse_member_declarator(ev, i + 1, m)
            } else if (text == "* const*"@ || text == "* const *"@) && m.ty_variant
                == TypeVariantV::ConstPtr {
                parse_member_declarator(
                    ev,
                    i + 1,
                    MemberV { ty_variant: TypeVariantV::ConstPtrConstPtr, ..m },
                )
            } else {
                Err(shape_err(text))
            },
            EventV::Start { name, attrs } => if name == "name"@ && attrs.len() == 0 {
                match spec_expect_text(ev, i + 1, "member"@) {
                    Ok(t) => match spec_expect_end(ev, i + 2, "name"@, "member"@) {
                        Ok(j) => if t.len() == 0 {
                            Err(missing_err("name"@, "Member"@))
                        } else {
                            Ok((MemberV { name: t, ..m }, j))
                        },
                        Err(e) => Err(e),
                    },
                    Err(e) => Err(e),
                }
            } else {
                Err(shape_err(name))
            },
            e => Err(shape_err(ev_tag(e))),
        }
    }
}

/// The suffix phase of a member: array markers, a symbolic length in
/// brackets, bitfield widths, and an embedded comment, up to the closing
/// tag.
pub open spec fn parse_member_suffix(ev: Seq<EventV>, i: int, m: MemberV) -> Result<
    (MemberV, int),
    ErrV,
>
    decreases ev.len() - i,
    via parse_member_suffix_dec
{
    if i < 0 || i >= ev.len() {
        Err(end_err("member"@))
    } else {
        match ev[i] {
            EventV::End { name } => if name == "member"@ {
                Ok((m, i + 1))
            } else {
                Err(shape_err(name))
            },
            EventV::Text { text } => if text == "["@ {
                match spec_expect_text_element(ev, i + 1, "enum"@, "member"@) {
                    Ok((sym, j)) => if m.ty_variant == TypeVariantV::Normal {
                        match spec_expect_text(ev, j, "member"@) {
                            Ok(t) => if t == "]"@ {
                                parse_member_suffix(
                                    ev,
                                    j + 1,
                                    MemberV { ty_variant: TypeVariantV::ArraySym(sym), ..m },
                                )
                            } else {
                                Err(shape_err(t))
                            },
                            Err(e) => Err(e),
                        }
                    } else {
                        Err(shape_err(text))
                    },
                    Err(e) => Err(e),
                }
            } else if text == "[2]"@ && m.ty_variant == TypeVariantV::Normal {
                parse_member_suffix(
                    ev,
                    i + 1,
                    MemberV { ty_variant: TypeVariantV::ArrayInt(2), ..m },
                )
            } else if text == "[3]"@ && m.ty_variant == TypeVariantV::Normal {
                parse_member_suffix(
                    ev,
                    i + 1,
                    MemberV { ty_variant: TypeVariantV::ArrayInt(3), ..m },
                )
            } else if text == "[4]"@ && m.ty_variant == TypeVariantV::Normal {
                parse_member_suffix(
                    ev,
                    i + 1,
                    MemberV { ty_variant: TypeVariantV::ArrayInt(4), ..m },
                )
            } else if text == "[3][4]"@ && m.ty_variant == TypeVariantV::Normal {
                parse_member_suffix(
                    ev,
                    i + 1,
                    MemberV { ty_variant: TypeVariantV::ArrayArrayInt(3, 4), ..m },
                )
            } else if text == ":8"@ {
                parse_member_suffix(ev, i + 1, MemberV { bitfields: Some(8u32), ..m })
            } else if text == ":24"@ {
                parse_member_suffix(ev, i + 1, MemberV { bitfields: Some(24u32), ..m })
            } else {
                Err(shape_err(text))
            },
            EventV::Start { name, attrs } => if name == "comment"@ && attrs.len() == 0 {
                match spec_expect_text(ev, i + 1, "member"@) {
                    Ok(t) => match spec_expect_end(ev, i + 2, "comment"@, "member"@) {
                        Ok(j) => parse_member_suffix(ev, j, MemberV { comment: Some(t), ..m }),
                        Err(e) => Err(e),
                    },
                    Err(e) => Err(e),
                }
            } else {
                Err(shape_err(name))
            },
            e => Err(shape_err(ev_tag(e))),
        }
    }
}

#[via_fn]
proof fn parse_member_suffix_dec(ev: Seq<EventV>, i: int, m: MemberV) {
}

/// One `<member>` element: attributes, then the qualifier, declarator and
/// suffix phases in order.
pub open spec fn spec_parse_member(ev: Seq<EventV>, i: int, attrs: Seq<char>) -> Result<
    (MemberV, int),
    ErrV,
> {
    match member_from_pairs(attrs_of(attrs)) {
        Ok(m0) => match parse_member_qualifier(ev, i, m0) {
            Ok((m1, j)) => match parse_member_declarator(ev, j, m1) {
                Ok((m2, k)) => parse_member_suffix(ev, k, m2),
                Err(e) => Err(e),
            },
            Err(e) => Err(e),
        },
        Err(e) => Err(e),
    }
}

/// The member qualifier phase only ever moves the cursor forward.
pub proof fn lemma_member_qualifier_advances(ev: Seq<EventV>, i: int, m: MemberV)
    ensures
        parse_member_qualifier(ev, i, m) matches Ok(q) ==> i < q.1 <= ev.len(),
    decreases ev.len() - i,
{
    if 0 <= i < ev.len() {
        lemma_member_qualifier_advances(ev, i + 1, m);
        lemma_member_qualifier_advances(
            ev,
            i + 1,
            MemberV { ty_variant: TypeVariantV::ConstPtr, ..m },
        );
    }
}

/// The member declarator phase only ever moves the cursor forward.
pub proof fn lemma_member_declarator_advances(ev: Seq<EventV>, i: int, m: MemberV)
    ensures
        parse_member_declarator(ev, i, m) matches Ok(q) ==> i < q.1 <= ev.len(),
    decreases ev.len() - i,
{
    if 0 <= i < ev.len() {
        lemma_member_declarator_advances(ev, i + 1, m);
        lemma_member_declarator_advances(
            ev,
            i + 1,
            MemberV { ty_variant: TypeVariantV::MutPtr, ..m },
        );
        lemma_member_declarator_advances(
            ev,
            i + 1,
            MemberV { ty_variant: TypeVariantV::ConstPtrConstPtr, ..m },
        );
    }
}

/// The member suffix phase only ever moves the cursor forward.
pub proof fn lemma_member_suffix_advances(ev: Seq<EventV>, i: int, m: MemberV)
    ensures
        parse_member_suffix(ev, i, m) matches Ok(q) ==> i < q.1 <= ev.len(),
    decreases ev.len() - i,
{
    if 0 <= i < ev.len() {
        match ev[i] {
            EventV::Text { text } => {
                if text == "["@ {
                    match spec_expect_text_element(ev, i + 1, "enum"@, "member"@) {
                        Ok((sym, j)) => {
                            assert(j == i + 4);
                            if j + 1 <= ev.len() {
                                lemma_member_suffix_advances(
                                    ev,
                                    j + 1,
                                    MemberV { ty_variant: TypeVariantV::ArraySym(sym), ..m },
                                );
                            }
                        },
                        Err(e) => {},
                    }
                } else {
                    lemma_member_suffix_advances(
                        ev,
                        i + 1,
                        MemberV { ty_variant: TypeVariantV::ArrayInt(2), ..m },
                    );
                    lemma_member_suffix_advances(
                        ev,
                        i + 1,
                        MemberV { ty_variant: TypeVariantV::ArrayInt(3), ..m },
                    );
                    lemma_member_suffix_advances(
                        ev,
                        i + 1,
                        MemberV { ty_variant: TypeVariantV::ArrayInt(4), ..m },
                    );
                    lemma_member_suffix_advances(
                        ev,
                        i + 1,
                        MemberV { ty_variant: TypeVariantV::ArrayArrayInt(3, 4), ..m },
                    );
                    lemma_member_suffix_advances(ev, i + 1, MemberV { bitfields: Some(8u32), ..m });
                    lemma_member_suffix_advances(ev, i + 1, MemberV { bitfields: Some(24u32), ..m });
                }
            },
            EventV::Start { name, attrs } => {
                if name == "comment"@ && attrs.len() == 0 {
                    match spec_expect_text(ev, i + 1, "member"@) {
                        Ok(t) => match spec_expect_end(ev, i + 2, "comment"@, "member"@) {
                            Ok(j) => lemma_member_suffix_advances(
                                ev,
                                j,
                                MemberV { comment: Some(t), ..m },
                            ),
                            Err(e) => {},
                        },
                        Err(e) => {},
                    }
                }
            },
            _ => {},
        }
    }
}

/// A whole `<member>` element only ever moves the cursor forward.
pub proof fn lemma_parse_member_advances(ev: Seq<EventV>, i: int, attrs: Seq<char>)
    ensures
        spec_parse_member(ev, i, attrs) matches Ok(q) ==> i < q.1 <= ev.len(),
{
    match member_from_pairs(attrs_of(attrs)) {
        Ok(m0) => {
            lemma_member_qualifier_advances(ev, i, m0);
            match parse_member_qualifier(ev, i, m0) {
                Ok((m1, j)) => {
                    lemma_member_declarator_advances(ev, j, m1);
                    match parse_member_declarator(ev, j, m1) {
                        Ok((m2, k)) => lemma_member_suffix_advances(ev, k, m2),
                        Err(e) => {},
                    }
                },
                Err(e) => {},
            }
        },
        Err(e) => {},
    }
}

/// Consumes one `<member>` element, inferring the field's type shape.
#[verifier::loop_isolation(false)]
pub fn do_member_start(attrs: &str, events: &Vec<XmlEvent>, pos: usize) -> (r: Result<
    (Member, usize),
    ParseError,
>)
    ensures
        match r {
            Ok(q) => spec_parse_member(events_view(events@), pos as int, attrs@) == Ok::<
                _,
                ErrV,
            >((q.0@, q.1 as int)),
            Err(e) => spec_parse_member(events_view(events@), pos as int, attrs@) == Err::<
                (MemberV, int),
                ErrV,
            >(e@),
        },
{
    let ghost ev = events_view(events@);
    let mut m = match Member::from_attrs(attrs) {
        Ok(m) => m,
        Err(e) => {
            return Err(e);
        },
    };
    let ghost m0 = m@;
    let mut cur = pos;
    loop
        invariant
            pos <= cur,
            parse_member_qualifier(ev, cur as int, m@) == parse_member_qualifier(
                ev,
                pos as int,
                m0,
            ),
        decreases ev.len() - cur,
    {
        if cur >= events.len() {
            return Err(ParseError::UnexpectedElement {
                tag: String::new(),
                context: "member".to_owned(),
            });
        }
        proof {
            assert(ev[cur as int] == events@[cur as int]@);
        }
        match &events[cur] {
            XmlEvent::Text { text } => {
                if str_eq(text.as_str(), "struct") {
                } else if str_eq(text.as_str(), "const") || str_eq(text.as_str(), "const struct") {
                    m.ty_variant = TypeVariant::ConstPtr;
                } else {
                    return Err(ParseError::AmbiguousOrUnrecognizedShape { tokens: text.clone() });
                }
            },
            XmlEvent::Start { name: n, attrs: a } => {
                if str_eq(n.as_str(), "type") && a.as_str().is_empty() {
                    let t = match expect_text(events, cur + 1, "member") {
                        Ok(t) => t,
                        Err(e) => {
                            return Err(e);
                        },
                    };
                    match expect_end(events, cur + 2, "type", "member") {
                        Ok(j) => {
                            m.ty = t;
                            cur = j;
                            break ;
                        },
                        Err(e) => {
                            return Err(e);
                        },
                    }
                } else {
                    return Err(ParseError::AmbiguousOrUnrecognizedShape { tokens: n.clone() });
                }
            },
            e => {
                return Err(ParseError::AmbiguousOrUnrecognizedShape { tokens: exec_ev_tag(e) });
            },
        }
        cur += 1;
    }
    let ghost m1 = m@;
    let ghost qpos = cur;
    loop
        invariant
            parse_member_declarator(ev, cur as int, m@) == parse_member_declarator(
                ev,
                qpos as int,
                m1,
            ),
            parse_member_qualifier(ev, pos as int, m0) == Ok::<_, ErrV>((m1, qpos as int)),
            qpos <= cur,
        decreases ev.len() - cur,
    {
        if cur >= events.len() {
            return Err(ParseError::UnexpectedElement {
                tag: String::new(),
                context: "member".to_owned(),
            });
        }
        proof {
            assert(ev[cur as int] == events@[cur as int]@);
        }
        match &events[cur] {
            XmlEvent::Text { text } => {
                let is_norm = matches!(m.ty_variant, TypeVariant::Normal);
                let is_cp = matches!(m.ty_variant, TypeVariant::ConstPtr);
                if str_eq(text.as_str(), "*") && is_norm {
                    m.ty_variant = TypeVariant::MutPtr;
                } else if str_eq(text.as_str(), "*") && is_cp {
                } else if (str_eq(text.as_str(), "* const*") || str_eq(text.as_str(), "* const *"))
                    && is_cp {
                    m.ty_variant = TypeVariant::ConstPtrConstPtr;
                } else {
                    return Err(ParseError::AmbiguousOrUnrecognizedShape { tokens: text.clone() });
                }
            },
            XmlEvent::Start { name: n, attrs: a } => {
                if str_eq(n.as_str(), "name") && a.as_str().is_empty() {
                    let t = match expect_text(events, cur + 1, "member") {
                        Ok(t) => t,
                        Err(e) => {
                            return Err(e);
                        },
                    };
                    match expect_end(events, cur + 2, "name", "member") {
                        Ok(j) => {
                            if t.as_str().is_empty() {
                                return Err(ParseError::MissingRequiredAttribute {
                                    name: "name".to_owned(),
                                    record_kind: "Member".to_owned(),
                                });
                            }
                            m.name = t;
                            cur = j;
                            break ;
                        },
                        Err(e) => {
                            return Err(e);
                        },
                    }
                } else {
                    return Err(ParseError::AmbiguousOrUnrecognizedShape { tokens: n.clone() });
                }
            },
            e => {
                return Err(ParseError::AmbiguousOrUnrecognizedShape { tokens: exec_ev_tag(e) });
            },
        }
        cur += 1;
    }
    let ghost m2 = m@;
    let ghost dpos = cur;
    loop
        invariant
            parse_member_suffix(ev, cur as int, m@) == parse_member_suffix(ev, dpos as int, m2),
            parse_member_qualifier(ev, pos as int, m0) == Ok::<_, ErrV>((m1, qpos as int)),
            parse_member_declarator(ev, qpos as int, m1) == Ok::<_, ErrV>((m2, dpos as int)),
            dpos <= cur,
        decreases ev.len() - cur,
    {
        if cur >= events.len() {
            return Err(ParseError::UnexpectedElement {
                tag: String::new(),
                context: "member".to_owned(),
            });
        }
        proof {
            assert(ev[cur as int] == events@[cur as int]@);
        }
        match &events[cur] {
            XmlEvent::End { name: n } => {
                if str_eq(n.as_str(), "member") {
                    return Ok((m, cur + 1));
                } else {
                    return Err(ParseError::AmbiguousOrUnrecognizedShape { tokens: n.clone() });
                }
            },
            XmlEvent::Text { text } => {
                let is_norm = matches!(m.ty_variant, TypeVariant::Normal);
                if str_eq(text.as_str(), "[") {
                    let (sym, j) = match expect_text_element(events, cur + 1, "enum", "member") {
                        Ok(q) => q,
                        Err(e) => {
                            return Err(e);
                        },
                    };
                    if !is_norm {
                        return Err(ParseError::AmbiguousOrUnrecognizedShape {
                            tokens: text.clone(),
                        });
                    }
                    let t = match expect_text(events, j, "member") {
                        Ok(t) => t,
                        Err(e) => {
                            return Err(e);
                        },
                    };
                    if !str_eq(t.as_str(), "]") {
                        return Err(ParseError::AmbiguousOrUnrecognizedShape { tokens: t });
                    }
                    m.ty_variant = TypeVariant::ArraySym(sym);
                    cur = j + 1;
                    continue ;
                } else if str_eq(text.as_str(), "[2]") && is_norm {
                    m.ty_variant = TypeVariant::ArrayInt(2);
                } else if str_eq(text.as_str(), "[3]") && is_norm {
                    m.ty_variant = TypeVariant::ArrayInt(3);
                } else if str_eq(text.as_str(), "[4]") && is_norm {
                    m.ty_variant = TypeVariant::ArrayInt(4);
                } else if str_eq(text.as_str(), "[3][4]") && is_norm {
                    m.ty_variant = TypeVariant::ArrayArrayInt(3, 4);
                } else if str_eq(text.as_str(), ":8") {
                    m.bitfields = Some(8);
                } else if str_eq(text.as_str(), ":24") {
                    m.bitfields = Some(24);
                } else {
                    return Err(ParseError::AmbiguousOrUnrecognizedShape { tokens: text.clone() });
                }
            },
            XmlEvent::Start { name: n, attrs: a } => {
                if str_eq(n.as_str(), "comment") && a.as_str().is_empty() {
                    let t = match expect_text(events, cur + 1, "member") {
                        Ok(t) => t,
                        Err(e) => {
                            return Err(e);
                        },
                    };
                    match expect_end(events, cur + 2, "comment", "member") {
                        Ok(j) => {
                            m.comment = Some(t);
                            cur = j;
                            continue ;
                        },
                        Err(e) => {
                            return Err(e);
                        },
                    }
                } else {
                    return Err(ParseError::AmbiguousOrUnrecognizedShape { tokens: n.clone() });
                }
            },
            e => {
                return Err(ParseError::AmbiguousOrUnrecognizedShape { tokens: exec_ev_tag(e) });
            },
        }
        cur += 1;
    }
}

/// The body of a `<type category="struct">` element: an optional comment
/// and `<member>` elements, through the closing tag.
pub open spec fn parse_structure_body(ev: Seq<EventV>, i: int, st: StructureV) -> Result<
    (StructureV, int),
    ErrV,
>
    decreases ev.len() - i,
    via parse_structure_body_dec
{
    if i < 0 || i >= ev.len() {
        Err(end_err("struct"@))
    } else {
        match ev[i] {
            EventV::End { name } => if name == "type"@ {
                Ok((st, i + 1))
            } else {
                Err(elem_err(name, "struct"@))
            },
            EventV::Start { name, attrs } => if name == "comment"@ && attrs.len() == 0 {
                match spec_expect_text(ev, i + 1, "struct"@) {
                    Ok(t) => match spec_expect_end(ev, i + 2, "comment"@, "struct"@) {
                        Ok(j) => parse_structure_body(ev, j, StructureV { comment: Some(t), ..st }),
                        Err(e) => Err(e),
                    },
                    Err(e) => Err(e),
                }
            } else if name == "member"@ {
                match spec_parse_member(ev, i + 1, attrs) {
                    Ok((m, j)) => parse_structure_body(
                        ev,
                        j,
                        StructureV { members: st.members.push(m), ..st },
                    ),
                    Err(e) => Err(e),
                }
            } else {
                Err(elem_err(name, "struct"@))
            },
            e => Err(elem_err(ev_tag(e), "struct"@)),
        }
    }
}

#[via_fn]
proof fn parse_structure_body_dec(ev: Seq<EventV>, i: int, st: StructureV) {
    if 0 <= i < ev.len() {
        match ev[i] {
            EventV::Start { name, attrs } => {
                if name == "member"@ {
                    lemma_parse_member_advances(ev, i + 1, attrs);
                }
            },
            _ => {},
        }
    }
}

/// A structure body only ever moves the cursor forward.
pub proof fn lemma_parse_structure_body_advances(ev: Seq<EventV>, i: int, st: StructureV)
    ensures
        parse_structure_body(ev, i, st) matches Ok(q) ==> i < q.1 <= ev.len(),
    decreases ev.len() - i,
{
    if 0 <= i < ev.len() {
        match ev[i] {
            EventV::Start { name, attrs } => {
                if name == "comment"@ && attrs.len() == 0 {
                    match spec_expect_text(ev, i + 1, "struct"@) {
                        Ok(t) => match spec_expect_end(ev, i + 2, "comment"@, "struct"@) {
                            Ok(j) => lemma_parse_structure_body_advances(
                                ev,
                                j,
                                StructureV { comment: Some(t), ..st },
                            ),
                            Err(e) => {},
                        },
                        Err(e) => {},
                    }
                } else if name == "member"@ {
                    lemma_parse_member_advances(ev, i + 1, attrs);
                    match spec_parse_member(ev, i + 1, attrs) {
                        Ok((m, j)) => lemma_parse_structure_body_advances(
                            ev,
                            j,
                            StructureV { members: st.members.push(m), ..st },
                        ),
                        Err(e) => {},
                    }
                }
            },
            _ => {},
        }
    }
}

/// Consumes the body of a struct type into `st`.
#[verifier::loop_isolation(false)]
fn do_type_start_struct_body(st: &mut Structure, events: &Vec<XmlEvent>, pos: usize) -> (r: Result<
    usize,
    ParseError,
>)
    ensures
        match r {
            Ok(j) => parse_structure_body(events_view(events@), pos as int, old(st)@) == Ok::<
                _,
                ErrV,
            >((final(st)@, j as int)),
            Err(e) => parse_structure_body(events_view(events@), pos as int, old(st)@) == Err::<
                (StructureV, int),
                ErrV,
            >(e@),
        },
{
    let ghost ev = events_view(events@);
    let ghost st0 = old(st)@;
    let mut cur = pos;
    loop
        invariant
            pos <= cur,
            parse_structure_body(ev, cur as int, st@) == parse_structure_body(ev, pos as int, st0),
        decreases ev.len() - cur,
    {
        if cur >= events.len() {
            return Err(ParseError::UnexpectedElement {
                tag: String::new(),
                context: "struct".to_owned(),
            });
        }
        proof {
            assert(ev[cur as int] == events@[cur as int]@);
        }
        match &events[cur] {
            XmlEvent::End { name: n } => {
                if str_eq(n.as_str(), "type") {
                    return Ok(cur + 1);
                } else {
                    return Err(ParseError::UnexpectedElement {
                        tag: n.clone(),
                        context: "struct".to_owned(),
                    });
                }
            },
            XmlEvent::Start { name: n, attrs: a } => {
                if str_eq(n.as_str(), "comment") && a.as_str().is_empty() {
                    let t = match expect_text(events, cur + 1, "struct") {
                        Ok(t) => t,
                        Err(e) => {
                            return Err(e);
                        },
                    };
                    match expect_end(events, cur + 2, "comment", "struct") {
                        Ok(j) => {
                            st.comment = Some(t);
                            cur = j;
                            continue ;
                        },
                        Err(e) => {
                            return Err(e);
                        },
                    }
                } else if str_eq(n.as_str(), "member") {
                    match do_member_start(a.as_str(), events, cur + 1) {
                        Ok((m, j)) => {
                            proof {
                                lemma_parse_member_advances(ev, cur as int + 1, a@);
                                assert(seq_view(st.members@.push(m)) =~= seq_view(
                                    st.members@,
                                ).push(m@));
                            }
                            st.members.push(m);
                            cur = j;
                            continue ;
                        },
                        Err(e) => {
                            return Err(e);
                        },
                    }
                } else {
                    return Err(ParseError::UnexpectedElement {
                        tag: n.clone(),
                        context: "struct".to_owned(),
                    });
                }
            },
            e => {
                return Err(ParseError::UnexpectedElement {
                    tag: exec_ev_tag(e),
                    context: "struct".to_owned(),
                });
            },
        }
    }
}

/// The body of a `<type category="union">` element: `<member>` elements
/// through the closing tag.
pub open spec fn parse_union_body(ev: Seq<EventV>, i: int, u: UnionV) -> Result<
    (UnionV, int),
    ErrV,
>
    decreases ev.len() - i,
    via parse_union_body_dec
{
    if i < 0 || i >= ev.len() {
        Err(end_err("union"@))
    } else {
        match ev[i] {
            EventV::End { name } => if name == "type"@ {
                Ok((u, i + 1))
            } else {
                Err(elem_err(name, "union"@))
            },
            EventV::Start { name, attrs } => if name == "member"@ {
                match spec_parse_member(ev, i + 1, attrs) {
                    Ok((m, j)) => parse_union_body(ev, j, UnionV { members: u.members.push(m), ..u }),
                    Err(e) => Err(e),
                }
            } else {
                Err(elem_err(name, "union"@))
            },
            e => Err(elem_err(ev_tag(e), "union"@)),
        }
    }
}

#[via_fn]
proof fn parse_union_body_dec(ev: Seq<EventV>, i: int, u: UnionV) {
    if 0 <= i < ev.len() {
        match ev[i] {
            EventV::Start { name, attrs } => {
                if name == "member"@ {
                    lemma_parse_member_advances(ev, i + 1, attrs);
                }
            },
            _ => {},
        }
    }
}

/// A union body only ever moves the cursor forward.
pub proof fn lemma_parse_union_body_advances(ev: Seq<EventV>, i: int, u: UnionV)
    ensures
        parse_union_body(ev, i, u) matches Ok(q) ==> i < q.1 <= ev.len(),
    decreases ev.len() - i,
{
    if 0 <= i < ev.len() {
        match ev[i] {
            EventV::Start { name, attrs } => {
                if name == "member"@ {
                    lemma_parse_member_advances(ev, i + 1, attrs);
                    match spec_parse_member(ev, i + 1, attrs) {
                        Ok((m, j)) => lemma_parse_union_body_advances(
                            ev,
                            j,
                            UnionV { members: u.members.push(m), ..u },
                        ),
                        Err(e) => {},
                    }
                }
            },
            _ => {},
        }
    }
}

/// Consumes the body of a union type into `u`.
#[verifier::loop_isolation(false)]
fn do_type_start_union_body(u: &mut Union, events: &Vec<XmlEvent>, pos: usize) -> (r: Result<
    usize,
    ParseError,
>)
    ensures
        match r {
            Ok(j) => parse_union_body(events_view(events@), pos as int, old(u)@) == Ok::<
                _,
                ErrV,
            >((final(u)@, j as int)),
            Err(e) => parse_union_body(events_view(events@), pos as int, old(u)@) == Err::<
                (UnionV, int),
                ErrV,
            >(e@),
        },
{
    let ghost ev = events_view(events@);
    let ghost u0 = old(u)@;
    let mut cur = pos;
    loop
        invariant
            pos <= cur,
            parse_union_body(ev, cur as int, u@) == parse_union_body(ev, pos as int, u0),
        decreases ev.len() - cur,
    {
        if cur >= events.len() {
            return Err(ParseError::UnexpectedElement {
                tag: String::new(),
                context: "union".to_owned(),
            });
        }
        proof {
            assert(ev[cur as int] == events@[cur as int]@);
        }
        match &events[cur] {
            XmlEvent::End { name: n } => {
                if str_eq(n.as_str(), "type") {
                    return Ok(cur + 1);
                } else {
                    return Err(ParseError::UnexpectedElement {
                        tag: n.clone(),
                        context: "union".to_owned(),
                    });
                }
            },
            XmlEvent::Start { name: n, attrs: a } => {
                if str_eq(n.as_str(), "member") {
                    match do_member_start(a.as_str(), events, cur + 1) {
                        Ok((m, j)) => {
                            proof {
                                lemma_parse_member_advances(ev, cur as int + 1, a@);
                                assert(seq_view(u.members@.push(m)) =~= seq_view(u.members@).push(
                                    m@,
                                ));
                            }
                            u.members.push(m);
                            cur = j;
                            continue ;
                        },
                        Err(e) => {
                            return Err(e);
                        },
                    }
                } else {
                    return Err(ParseError::UnexpectedElement {
                        tag: n.clone(),
                        context: "union".to_owned(),
                    });
                }
            },
            e => {
                return Err(ParseError::UnexpectedElement {
                    tag: exec_ev_tag(e),
                    context: "union".to_owned(),
                });
            },
        }
    }
}

/// The body of a `<type category="include">` element: raw text runs
/// accumulated verbatim, through the closing tag.
pub open spec fn parse_include_body(ev: Seq<EventV>, i: int, inc: IncludeV) -> Result<
    (IncludeV, int),
    ErrV,
>
    decreases ev.len() - i,
{
    if i < 0 || i >= ev.len() {
        Err(end_err("include"@))
    } else {
        match ev[i] {
            EventV::End { name } => if name == "type"@ {
                Ok((inc, i + 1))
            } else {
                Err(elem_err(name, "include"@))
            },
            EventV::Text { text } => parse_include_body(
                ev,
                i + 1,
                IncludeV {
                    text: match inc.text {
                        Some(x) => Some(x + text),
                        None => Some(text),
                    },
                    ..inc
                },
            ),
            e => Err(elem_err(ev_tag(e), "include"@)),
        }
    }
}

/// An include body only ever moves the cursor forward.
pub proof fn lemma_parse_include_body_advances(ev: Seq<EventV>, i: int, inc: IncludeV)
    ensures
        parse_include_body(ev, i, inc) matches Ok(q) ==> i < q.1 <= ev.len(),
    decreases ev.len() - i,
{
    if 0 <= i < ev.len() {
        match ev[i] {
            EventV::Text { text } => {
                lemma_parse_include_body_advances(
                    ev,
                    i + 1,
                    IncludeV {
                        text: match inc.text {
                            Some(x) => Some(x + text),
                            None => Some(text),
                        },
                        ..inc
                    },
                );
            },
            _ => {},
        }
    }
}

/// Consumes the body of an include type.
#[verifier::loop_isolation(false)]
fn do_type_start_include_body(inc: Include, events: &Vec<XmlEvent>, pos: usize) -> (r: Result<
    (Include, usize),
    ParseError,
>)
    ensures
        match r {
            Ok(q) => parse_include_body(events_view(events@), pos as int, inc@) == Ok::<
                _,
                ErrV,
            >((q.0@, q.1 as int)),
            Err(e) => parse_include_body(events_view(events@), pos as int, inc@) == Err::<
                (IncludeV, int),
                ErrV,
            >(e@),
        },
{
    let ghost ev = events_view(events@);
    let ghost inc0 = inc@;
    let Include { name, text } = inc;
    let mut text = text;
    let mut cur = pos;
    loop
        invariant
            pos <= cur,
            parse_include_body(ev, cur as int, IncludeV { name: name@, text: opt_view(text) })
                == parse_include_body(ev, pos as int, inc0),
        decreases ev.len() - cur,
    {
        if cur >= events.len() {
            return Err(ParseError::UnexpectedElement {
                tag: String::new(),
                context: "include".to_owned(),
            });
        }
        proof {
            assert(ev[cur as int] == events@[cur as int]@);
        }
        match &events[cur] {
            XmlEvent::End { name: n } => {
                if str_eq(n.as_str(), "type") {
                    return Ok((Include { name, text }, cur + 1));
                } else {
                    return Err(ParseError::UnexpectedElement {
                        tag: n.clone(),
                        context: "include".to_owned(),
                    });
                }
            },
            XmlEvent::Text { text: t } => {
                text = match text {
                    Some(x) => {
                        let mut x2 = x;
                        x2.append(t.as_str());
                        Some(x2)
                    },
                    None => Some(t.clone()),
                };
            },
            e => {
                return Err(ParseError::UnexpectedElement {
                    tag: exec_ev_tag(e),
                    context: "include".to_owned(),
                });
            },
        }
        cur += 1;
    }
}

/// The body of a `<type category="define">` element: escaped text runs
/// joined with single spaces (except before a parenthesis), the `<name>`
/// and `<type>` sub-elements folded into the text, and CR LF pairs
/// normalized at the close.
pub open spec fn parse_define_body(ev: Seq<EventV>, i: int, d: CppDefineV) -> Result<
    (CppDefineV, int),
    ErrV,
>
    decreases ev.len() - i,
{
    if i < 0 || i >= ev.len() {
        Err(end_err("define"@))
    } else {
        match ev[i] {
            EventV::End { name } => if name == "type"@ {
                if d.name.len() == 0 {
                    Err(missing_err("name"@, "CppDefine"@))
                } else {
                    Ok((CppDefineV { text: crlf_to_lf(d.text), ..d }, i + 1))
                }
            } else {
                Err(elem_err(name, "define"@))
            },
            EventV::Text { text } => match unescaped(text) {
                None => Err(ErrV::MalformedAttributeValue { key: "text"@, raw_value: text }),
                Some(u) => if d.text.len() > 0 && !(text.len() > 0 && text[0] == '(') {
                    parse_define_body(ev, i + 1, CppDefineV { text: d.text + seq![' '] + u, ..d })
                } else {
                    parse_define_body(ev, i + 1, CppDefineV { text: d.text + u, ..d })
                },
            },
            EventV::Start { name, attrs } => if name == "name"@ && attrs.len() == 0 {
                match spec_expect_text(ev, i + 1, "define"@) {
                    Ok(t) => match spec_expect_end(ev, i + 2, "name"@, "define"@) {
                        Ok(j) => parse_define_body(
                            ev,
                            j,
                            CppDefineV { name: t, text: d.text + seq![' '] + t, ..d },
                        ),
                        Err(e) => Err(e),
                    },
                    Err(e) => Err(e),
                }
            } else if name == "type"@ && attrs.len() == 0 {
                match spec_expect_text(ev, i + 1, "define"@) {
                    Ok(t) => match spec_expect_end(ev, i + 2, "type"@, "define"@) {
                        Ok(j) => parse_define_body(
                            ev,
                            j,
                            CppDefineV { text: d.text + seq![' '] + t, ..d },
                        ),
                        Err(e) => Err(e),
                    },
                    Err(e) => Err(e),
                }
            } else {
                Err(elem_err(name, "define"@))
            },
            e => Err(elem_err(ev_tag(e), "define"@)),
        }
    }
}

/// A define body only ever moves the cursor forward.
pub proof fn lemma_parse_define_body_advances(ev: Seq<EventV>, i: int, d: CppDefineV)
    ensures
        parse_define_body(ev, i, d) matches Ok(q) ==> i < q.1 <= ev.len(),
    decreases ev.len() - i,
{
    if 0 <= i < ev.len() {
        match ev[i] {
            EventV::Text { text } => {
                match unescaped(text) {
                    None => {},
                    Some(u) => {
                        lemma_parse_define_body_advances(
                            ev,
                            i + 1,
                            CppDefineV { text: d.text + seq![' '] + u, ..d },
                        );
                        lemma_parse_define_body_advances(
                            ev,
                            i + 1,
                            CppDefineV { text: d.text + u, ..d },
                        );
                    },
                }
            },
            EventV::Start { name, attrs } => {
                match spec_expect_text(ev, i + 1, "define"@) {
                    Ok(t) => {
                        match spec_expect_end(ev, i + 2, "name"@, "define"@) {
                            Ok(j) => lemma_parse_define_body_advances(
                                ev,
                                j,
                                CppDefineV { name: t, text: d.text + seq![' '] + t, ..d },
                            ),
                            Err(e) => {},
                        }
                        match spec_expect_end(ev, i + 2, "type"@, "define"@) {
                            Ok(j) => lemma_parse_define_body_advances(
                                ev,
                                j,
                                CppDefineV { text: d.text + seq![' '] + t, ..d },
                            ),
                            Err(e) => {},
                        }
                    },
                    Err(e) => {},
                }
            },
            _ => {},
        }
    }
}

/// Consumes the body of a define type.
#[verifier::loop_isolation(false)]
fn do_type_start_define_body(d: &mut CppDefine, events: &Vec<XmlEvent>, pos: usize) -> (r: Result<
    usize,
    ParseError,
>)
    ensures
        match r {
            Ok(j) => parse_define_body(events_view(events@), pos as int, old(d)@) == Ok::<
                _,
                ErrV,
            >((final(d)@, j as int)),
            Err(e) => parse_define_body(events_view(events@), pos as int, old(d)@) == Err::<
                (CppDefineV, int),
                ErrV,
            >(e@),
        },
{
    let ghost ev = events_view(events@);
    let ghost d0 = old(d)@;
    let mut cur = pos;
    loop
        invariant
            pos <= cur,
            parse_define_body(ev, cur as int, d@) == parse_define_body(ev, pos as int, d0),
        decreases ev.len() - cur,
    {
        if cur >= events.len() {
            return Err(ParseError::UnexpectedElement {
                tag: String::new(),
                context: "define".to_owned(),
            });
        }
        proof {
            assert(ev[cur as int] == events@[cur as int]@);
            reveal_strlit(" ");
            assert((" "@) =~= seq![' ']);
        }
        match &events[cur] {
            XmlEvent::End { name: n } => {
                if str_eq(n.as_str(), "type") {
                    if d.name.as_str().is_empty() {
                        return Err(ParseError::MissingRequiredAttribute {
                            name: "name".to_owned(),
                            record_kind: "CppDefine".to_owned(),
                        });
                    }
                    let normalized = normalize_newlines(d.text.as_str());
                    d.text = normalized;
                    return Ok(cur + 1);
                } else {
                    return Err(ParseError::UnexpectedElement {
                        tag: n.clone(),
                        context: "define".to_owned(),
                    });
                }
            },
            XmlEvent::Text { text: t } => {
                let u = match revert_xml_encoding(t.as_str()) {
                    Ok(u) => u,
                    Err(e) => {
                        return Err(e);
                    },
                };
                if !d.text.as_str().is_empty() && !starts_with_paren(t.as_str()) {
                    d.text.append(" ");
                }
                d.text.append(u.as_str());
            },
            XmlEvent::Start { name: n, attrs: a } => {
                if str_eq(n.as_str(), "name") && a.as_str().is_empty() {
                    let t = match expect_text(events, cur + 1, "define") {
                        Ok(t) => t,
                        Err(e) => {
                            return Err(e);
                        },
                    };
                    match expect_end(events, cur + 2, "name", "define") {
                        Ok(j) => {
                            d.text.append(" ");
                            d.text.append(t.as_str());
                            d.name = t;
                            cur = j;
                            continue ;
                        },
                        Err(e) => {
                            return Err(e);
                        },
                    }
                } else if str_eq(n.as_str(), "type") && a.as_str().is_empty() {
                    let t = match expect_text(events, cur + 1, "define") {
                        Ok(t) => t,
                        Err(e) => {
                            return Err(e);
                        },
                    };
                    match expect_end(events, cur + 2, "type", "define") {
                        Ok(j) => {
                            d.text.append(" ");
                            d.text.append(t.as_str());
                            cur = j;
                            continue ;
                        },
                        Err(e) => {
                            return Err(e);
                        },
                    }
                } else {
                    return Err(ParseError::UnexpectedElement {
                        tag: n.clone(),
                        context: "define".to_owned(),
                    });
                }
            },
            e => {
                return Err(ParseError::UnexpectedElement {
                    tag: exec_ev_tag(e),
                    context: "define".to_owned(),
                });
            },
        }
        cur += 1;
    }
}

/// The body of a `<type category="basetype">` element: escaped text
/// accumulated verbatim, the `<name>` and `<type>` sub-elements folded in
/// behind a space, and CR LF pairs normalized at the close.
pub open spec fn parse_base_body(ev: Seq<EventV>, i: int, b: BaseTypeV) -> Result<
    (BaseTypeV, int),
    ErrV,
>
    decreases ev.len() - i,
{
    if i < 0 || i >= ev.len() {
        Err(end_err("basetype"@))
    } else {
        match ev[i] {
            EventV::End { name } => if name == "type"@ {
                if b.name.len() == 0 {
                    Err(missing_err("name"@, "BaseType"@))
                } else {
                    Ok((BaseTypeV { text: crlf_to_lf(b.text), ..b }, i + 1))
                }
            } else {
                Err(elem_err(name, "basetype"@))
            },
            EventV::Text { text } => match unescaped(text) {
                None => Err(ErrV::MalformedAttributeValue { key: "text"@, raw_value: text }),
                Some(u) => parse_base_body(ev, i + 1, BaseTypeV { text: b.text + u, ..b }),
            },
            EventV::Start { name, attrs } => if name == "name"@ && attrs.len() == 0 {
                match spec_expect_text(ev, i + 1, "basetype"@) {
                    Ok(t) => match spec_expect_end(ev, i + 2, "name"@, "basetype"@) {
                        Ok(j) => parse_base_body(
                            ev,
                            j,
                            BaseTypeV { name: t, text: b.text + seq![' '] + t },
                        ),
                        Err(e) => Err(e),
                    },
                    Err(e) => Err(e),
                }
            } else if name == "type"@ && attrs.len() == 0 {
                match spec_expect_text(ev, i + 1, "basetype"@) {
                    Ok(t) => match spec_expect_end(ev, i + 2, "type"@, "basetype"@) {
                        Ok(j) => parse_base_body(ev, j, BaseTypeV { text: b.text + seq![' '] + t, ..b }),
                        Err(e) => Err(e),
                    },
                    Err(e) => Err(e),
                }
            } else {
                Err(elem_err(name, "basetype"@))
            },
            e => Err(elem_err(ev_tag(e), "basetype"@)),
        }
    }
}

/// A basetype body only ever moves the cursor forward.
pub proof fn lemma_parse_base_body_advances(ev: Seq<EventV>, i: int, b: BaseTypeV)
    ensures
        parse_base_body(ev, i, b) matches Ok(q) ==> i < q.1 <= ev.len(),
    decreases ev.len() - i,
{
    if 0 <= i < ev.len() {
        match ev[i] {
            EventV::Text { text } => {
                match unescaped(text) {
                    None => {},
                    Some(u) => {
                        lemma_parse_base_body_advances(ev, i + 1, BaseTypeV { text: b.text + u, ..b });
                    },
                }
            },
            EventV::Start { name, attrs } => {
                match spec_expect_text(ev, i + 1, "basetype"@) {
                    Ok(t) => {
                        match spec_expect_end(ev, i + 2, "name"@, "basetype"@) {
                            Ok(j) => lemma_parse_base_body_advances(
                                ev,
                                j,
                                BaseTypeV { name: t, text: b.text + seq![' '] + t },
                            ),
                            Err(e) => {},
                        }
                        match spec_expect_end(ev, i + 2, "type"@, "basetype"@) {
                            Ok(j) => lemma_parse_base_body_advances(
                                ev,
                                j,
                                BaseTypeV { text: b.text + seq![' '] + t, ..b },
                            ),
                            Err(e) => {},
                        }
                    },
                    Err(e) => {},
                }
            },
            _ => {},
        }
    }
}

/// Consumes the body of a basetype type.
#[verifier::loop_isolation(false)]
fn do_type_start_base_body(b: &mut BaseType, events: &Vec<XmlEvent>, pos: usize) -> (r: Result<
    usize,
    ParseError,
>)
    ensures
        match r {
            Ok(j) => parse_base_body(events_view(events@), pos as int, old(b)@) == Ok::<
                _,
                ErrV,
            >((final(b)@, j as int)),
            Err(e) => parse_base_body(events_view(events@), pos as int, old(b)@) == Err::<
                (BaseTypeV, int),
                ErrV,
            >(e@),
        },
{
    let ghost ev = events_view(events@);
    let ghost b0 = old(b)@;
    let mut cur = pos;
    loop
        invariant
            pos <= cur,
            parse_base_body(ev, cur as int, b@) == parse_base_body(ev, pos as int, b0),
        decreases ev.len() - cur,
    {
        if cur >= events.len() {
            return Err(ParseError::UnexpectedElement {
                tag: String::new(),
                context: "basetype".to_owned(),
            });
        }
        proof {
            assert(ev[cur as int] == events@[cur as int]@);
            reveal_strlit(" ");
            assert((" "@) =~= seq![' ']);
        }
        match &events[cur] {
            XmlEvent::End { name: n } => {
                if str_eq(n.as_str(), "type") {
                    if b.name.as_str().is_empty() {
                        return Err(ParseError::MissingRequiredAttribute {
                            name: "name".to_owned(),
                            record_kind: "BaseType".to_owned(),
                        });
                    }
                    let normalized = normalize_newlines(b.text.as_str());
                    b.text = normalized;
                    return Ok(cur + 1);
                } else {
                    return Err(ParseError::UnexpectedElement {
                        tag: n.clone(),
                        context: "basetype".to_owned(),
                    });
                }
            },
            XmlEvent::Text { text: t } => {
                let u = match revert_xml_encoding(t.as_str()) {
                    Ok(u) => u,
                    Err(e) => {
                        return Err(e);
                    },
                };
                b.text.append(u.as_str());
            },
            XmlEvent::Start { name: n, attrs: a } => {
                if str_eq(n.as_str(), "name") && a.as_str().is_empty() {
                    let t = match expect_text(events, cur + 1, "basetype") {
                        Ok(t) => t,
                        Err(e) => {
                            return Err(e);
                        },
                    };
                    match expect_end(events, cur + 2, "name", "basetype") {
                        Ok(j) => {
                            b.text.append(" ");
                            b.text.append(t.as_str());
                            b.name = t;
                            cur = j;
                            continue ;
                        },
                        Err(e) => {
                            return Err(e);
                        },
                    }
                } else if str_eq(n.as_str(), "type") && a.as_str().is_empty() {
                    let t = match expect_text(events, cur + 1, "basetype") {
                        Ok(t) => t,
                        Err(e) => {
                            return Err(e);
                        },
                    };
                    match expect_end(events, cur + 2, "type", "basetype") {
                        Ok(j) => {
                            b.text.append(" ");
                            b.text.append(t.as_str());
                            cur = j;
                            continue ;
                        },
                        Err(e) => {
                            return Err(e);
                        },
                    }
                } else {
                    return Err(ParseError::UnexpectedElement {
                        tag: n.clone(),
                        context: "basetype".to_owned(),
                    });
                }
            },
            e => {
                return Err(ParseError::UnexpectedElement {
                    tag: exec_ev_tag(e),
                    context: "basetype".to_owned(),
                });
            },
        }
        cur += 1;
    }
}

/// The body of a `<type category="bitmask">` element: a `typedef` run
/// naming `VkFlags` or `VkFlags64` and the flags type's name, through the
/// closing tag.
pub open spec fn parse_bitmask_body(ev: Seq<EventV>, i: int, b: BitmaskV) -> Result<
    (BitmaskV, int),
    ErrV,
>
    decreases ev.len() - i,
    via parse_bitmask_body_dec
{
    if i < 0 || i >= ev.len() {
        Err(end_err("bitmask"@))
    } else {
        match ev[i] {
            EventV::End { name } => if name == "type"@ {
                if b.name.len() == 0 {
                    Err(missing_err("name"@, "Bitmask"@))
                } else {
                    Ok((b, i + 1))
                }
            } else {
                Err(elem_err(name, "bitmask"@))
            },
            EventV::Text { text } => if text == "typedef"@ {
                match spec_expect_text_element(ev, i + 1, "type"@, "bitmask"@) {
                    Ok((ty, j)) => if ty == "VkFlags64"@ || ty == "VkFlags"@ {
                        match spec_expect_text_element(ev, j, "name"@, "bitmask"@) {
                            Ok((nm, k)) => match spec_expect_text(ev, k, "bitmask"@) {
                                Ok(semi) => if semi == ";"@ {
                                    parse_bitmask_body(
                                        ev,
                                        k + 1,
                                        BitmaskV {
                                            name: nm,
                                            flags64: if ty == "VkFlags64"@ {
                                                true
                                            } else {
                                                b.flags64
                                            },
                                            ..b
                                        },
                                    )
                                } else {
                                    Err(elem_err(semi, "bitmask"@))
                                },
                                Err(e) => Err(e),
                            },
                            Err(e) => Err(e),
                        }
                    } else {
                        Err(elem_err(ty, "bitmask"@))
                    },
                    Err(e) => Err(e),
                }
            } else {
                Err(elem_err(text, "bitmask"@))
            },
            e => Err(elem_err(ev_tag(e), "bitmask"@)),
        }
    }
}

#[via_fn]
proof fn parse_bitmask_body_dec(ev: Seq<EventV>, i: int, b: BitmaskV) {
}

/// A bitmask body only ever moves the cursor forward.
pub proof fn lemma_parse_bitmask_body_advances(ev: Seq<EventV>, i: int, b: BitmaskV)
    ensures
        parse_bitmask_body(ev, i, b) matches Ok(q) ==> i < q.1 <= ev.len(),
    decreases ev.len() - i,
{
    if 0 <= i < ev.len() {
        match ev[i] {
            EventV::Text { text } => {
                if text == "typedef"@ {
                    match spec_expect_text_element(ev, i + 1, "type"@, "bitmask"@) {
                        Ok((ty, j)) => {
                            match spec_expect_text_element(ev, j, "name"@, "bitmask"@) {
                                Ok((nm, k)) => {
                                    if k + 1 <= ev.len() {
                                        lemma_parse_bitmask_body_advances(
                                            ev,
                                            k + 1,
                                            BitmaskV {
                                                name: nm,
                                                flags64: if ty == "VkFlags64"@ {
                                                    true
                                                } else {
                                                    b.flags64
                                                },
                                                ..b
                                            },
                                        );
                                    }
                                },
                                Err(e) => {},
                            }
                        },
                        Err(e) => {},
                    }
                }
            },
            _ => {},
        }
    }
}

/// Consumes the body of a bitmask type.
#[verifier::loop_isolation(false)]
fn do_type_start_bitmask_body(b: &mut Bitmask, events: &Vec<XmlEvent>, pos: usize) -> (r: Result<
    usize,
    ParseError,
>)
    ensures
        match r {
            Ok(j) => parse_bitmask_body(events_view(events@), pos as int, old(b)@) == Ok::<
                _,
                ErrV,
            >((final(b)@, j as int)),
            Err(e) => parse_bitmask_body(events_view(events@), pos as int, old(b)@) == Err::<
                (BitmaskV, int),
                ErrV,
            >(e@),
        },
{
    let ghost ev = events_view(events@);
    let ghost b0 = old(b)@;
    let mut cur = pos;
    loop
        invariant
            pos <= cur,
            parse_bitmask_body(ev, cur as int, b@) == parse_bitmask_body(ev, pos as int, b0),
        decreases ev.len() - cur,
    {
        if cur >= events.len() {
            return Err(ParseError::UnexpectedElement {
                tag: String::new(),
                context: "bitmask".to_owned(),
            });
        }
        proof {
            assert(ev[cur as int] == events@[cur as int]@);
        }
        match &events[cur] {
            XmlEvent::End { name: n } => {
                if str_eq(n.as_str(), "type") {
                    if b.name.as_str().is_empty() {
                        return Err(ParseError::MissingRequiredAttribute {
                            name: "name".to_owned(),
                            record_kind: "Bitmask".to_owned(),
                        });
                    }
                    return Ok(cur + 1);
                } else {
                    return Err(ParseError::UnexpectedElement {
                        tag: n.clone(),
                        context: "bitmask".to_owned(),
                    });
                }
            },
            XmlEvent::Text { text: t } => {
                if str_eq(t.as_str(), "typedef") {
                    let (ty, j) = match expect_text_element(events, cur + 1, "type", "bitmask") {
                        Ok(q) => q,
                        Err(e) => {
                            return Err(e);
                        },
                    };
                    let is64 = str_eq(ty.as_str(), "VkFlags64");
                    if !is64 && !str_eq(ty.as_str(), "VkFlags") {
                        return Err(ParseError::UnexpectedElement {
                            tag: ty,
                            context: "bitmask".to_owned(),
                        });
                    }
                    let (nm, k) = match expect_text_element(events, j, "name", "bitmask") {
                        Ok(q) => q,
                        Err(e) => {
                            return Err(e);
                        },
                    };
                    let semi = match expect_text(events, k, "bitmask") {
                        Ok(t) => t,
                        Err(e) => {
                            return Err(e);
                        },
                    };
                    if !str_eq(semi.as_str(), ";") {
                        return Err(ParseError::UnexpectedElement {
                            tag: semi,
                            context: "bitmask".to_owned(),
                        });
                    }
                    b.name = nm;
                    if is64 {
                        b.flags64 = true;
                    }
                    cur = k + 1;
                    continue ;
                } else {
                    return Err(ParseError::UnexpectedElement {
                        tag: t.clone(),
                        context: "bitmask".to_owned(),
                    });
                }
            },
            e => {
                return Err(ParseError::UnexpectedElement {
                    tag: exec_ev_tag(e),
                    context: "bitmask".to_owned(),
                });
            },
        }
        cur += 1;
    }
}

/// The fixed run inside a `<type category="handle">` element: the macro
/// name, the parenthesized `<name>` sub-element, and the closing tag.
pub open spec fn parse_handle_body(ev: Seq<EventV>, i: int, h: HandleV) -> Result<
    (HandleV, int),
    ErrV,
> {
    match spec_expect_bare_start(ev, i, "type"@, "handle"@) {
        Ok(j) => match spec_expect_text(ev, j, "handle"@) {
            Ok(macro_name) => if macro_name == "VK_DEFINE_HANDLE"@ || macro_name
                == "VK_DEFINE_NON_DISPATCHABLE_HANDLE"@ {
                match spec_expect_end(ev, j + 1, "type"@, "handle"@) {
                    Ok(k) => match spec_expect_text(ev, k, "handle"@) {
                        Ok(open_paren) => if open_paren == "("@ {
                            match spec_expect_text_element(ev, k + 1, "name"@, "handle"@) {
                                Ok((nm, l)) => match spec_expect_text(ev, l, "handle"@) {
                                    Ok(close_paren) => if close_paren == ")"@ {
                                        match spec_expect_end(ev, l + 1, "type"@, "handle"@) {
                                            Ok(fin) => if nm.len() == 0 {
                                                Err(missing_err("name"@, "Handle"@))
                                            } else {
                                                Ok(
                                                    (
                                                        HandleV {
                                                            name: nm,
                                                            non_dispatchable: if macro_name
                                                                == "VK_DEFINE_NON_DISPATCHABLE_HANDLE"@ {
                                                                true
                                                            } else {
                                                                h.non_dispatchable
                                                            },
                                                            ..h
                                                        },
                                                        fin,
                                                    ),
                                                )
                                            },
                                            Err(e) => Err(e),
                                        }
                                    } else {
                                        Err(elem_err(close_paren, "handle"@))
                                    },
                                    Err(e) => Err(e),
                                },
                                Err(e) => Err(e),
                            }
                        } else {
                            Err(elem_err(open_paren, "handle"@))
                        },
                        Err(e) => Err(e),
                    },
                    Err(e) => Err(e),
                }
            } else {
                Err(elem_err(macro_name, "handle"@))
            },
            Err(e) => Err(e),
        },
        Err(e) => Err(e),
    }
}

/// Consumes the fixed body of a handle type.
pub proof fn lemma_parse_handle_body_advances(ev: Seq<EventV>, i: int, h: HandleV)
    ensures
        parse_handle_body(ev, i, h) matches Ok(q) ==> i < q.1 <= ev.len(),
{
}

/// Consumes the body of a handle type.
fn do_type_start_handle_body(h: &mut Handle, events: &Vec<XmlEvent>, pos: usize) -> (r: Result<
    usize,
    ParseError,
>)
    ensures
        match r {
            Ok(j) => parse_handle_body(events_view(events@), pos as int, old(h)@) == Ok::<
                _,
                ErrV,
            >((final(h)@, j as int)),
            Err(e) => parse_handle_body(events_view(events@), pos as int, old(h)@) == Err::<
                (HandleV, int),
                ErrV,
            >(e@),
        },
{
    let ghost ev = events_view(events@);
    let n = events.len();
    let j = match expect_bare_start(events, pos, "type", "handle") {
        Ok(j) => j,
        Err(e) => {
            return Err(e);
        },
    };
    let macro_name = match expect_text(events, j, "handle") {
        Ok(t) => t,
        Err(e) => {
            return Err(e);
        },
    };
    proof {
        if j as int >= ev.len() {
            assert(spec_expect_text(ev, j as int, "handle"@) is Err);
        }
        assert(j < n);
    }
    let nd = str_eq(macro_name.as_str(), "VK_DEFINE_NON_DISPATCHABLE_HANDLE");
    if !nd && !str_eq(macro_name.as_str(), "VK_DEFINE_HANDLE") {
        return Err(ParseError::UnexpectedElement {
            tag: macro_name,
            context: "handle".to_owned(),
        });
    }
    let k = match expect_end(events, j + 1, "type", "handle") {
        Ok(k) => k,
        Err(e) => {
            return Err(e);
        },
    };
    let open_paren = match expect_text(events, k, "handle") {
        Ok(t) => t,
        Err(e) => {
            return Err(e);
        },
    };
    proof {
        if k as int >= ev.len() {
            assert(spec_expect_text(ev, k as int, "handle"@) is Err);
        }
        assert(k < n);
    }
    if !str_eq(open_paren.as_str(), "(") {
        return Err(ParseError::UnexpectedElement { tag: open_paren, context: "handle".to_owned() });
    }
    let (nm, l) = match expect_text_element(events, k + 1, "name", "handle") {
        Ok(q) => q,
        Err(e) => {
            return Err(e);
        },
    };
    let close_paren = match expect_text(events, l, "handle") {
        Ok(t) => t,
        Err(e) => {
            return Err(e);
        },
    };
    if !str_eq(close_paren.as_str(), ")") {
        return Err(ParseError::UnexpectedElement { tag: close_paren, context: "handle".to_owned() });
    }
    let fin = match expect_end(events, l + 1, "type", "handle") {
        Ok(f) => f,
        Err(e) => {
            return Err(e);
        },
    };
    if nm.as_str().is_empty() {
        return Err(ParseError::MissingRequiredAttribute {
            name: "name".to_owned(),
            record_kind: "Handle".to_owned(),
        });
    }
    h.name = nm;
    if nd {
        h.non_dispatchable = true;
    }
    Ok(fin)
}

/// The tail of a funcpointer declaration after the name: raw text runs and
/// `<type>` sub-elements folded into the declaration text, through the
/// closing tag; the accumulated text is cleaned up at the close.
pub open spec fn parse_funcpointer_tail(ev: Seq<EventV>, i: int, f: FuncPointerV) -> Result<
    (FuncPointerV, int),
    ErrV,
>
    decreases ev.len() - i,
{
    if i < 0 || i >= ev.len() {
        Err(end_err("funcpointer"@))
    } else {
        match ev[i] {
            EventV::End { name } => if name == "type"@ {
                if f.name.len() == 0 {
                    Err(missing_err("name"@, "FuncPointer"@))
                } else {
                    Ok((FuncPointerV { text: collapse_declaration_text(f.text), ..f }, i + 1))
                }
            } else {
                Err(elem_err(name, "funcpointer"@))
            },
            EventV::Text { text } => parse_funcpointer_tail(
                ev,
                i + 1,
                FuncPointerV { text: f.text + text, ..f },
            ),
            EventV::Start { name, attrs } => if name == "type"@ && attrs.len() == 0 {
                match spec_expect_text(ev, i + 1, "funcpointer"@) {
                    Ok(t) => match spec_expect_end(ev, i + 2, "type"@, "funcpointer"@) {
                        Ok(j) => parse_funcpointer_tail(
                            ev,
                            j,
                            FuncPointerV { text: f.text + seq![' '] + t + seq![' '], ..f },
                        ),
                        Err(e) => Err(e),
                    },
                    Err(e) => Err(e),
                }
            } else {
                Err(elem_err(name, "funcpointer"@))
            },
            e => Err(elem_err(ev_tag(e), "funcpointer"@)),
        }
    }
}

/// The whole body of a funcpointer type: the leading declaration text, the
/// `<name>` sub-element, and the tail.
pub open spec fn parse_funcpointer_body(ev: Seq<EventV>, i: int, f: FuncPointerV) -> Result<
    (FuncPointerV, int),
    ErrV,
> {
    match spec_expect_text(ev, i, "funcpointer"@) {
        Ok(t0) => match spec_expect_text_element(ev, i + 1, "name"@, "funcpointer"@) {
            Ok((nm, j)) => parse_funcpointer_tail(
                ev,
                j,
                FuncPointerV { name: nm, text: t0 + seq![' '] + nm + seq![' '], ..f },
            ),
            Err(e) => Err(e),
        },
        Err(e) => Err(e),
    }
}

/// A funcpointer tail only ever moves the cursor forward.
pub proof fn lemma_parse_funcpointer_tail_advances(ev: Seq<EventV>, i: int, f: FuncPointerV)
    ensures
        parse_funcpointer_tail(ev, i, f) matches Ok(q) ==> i < q.1 <= ev.len(),
    decreases ev.len() - i,
{
    if 0 <= i < ev.len() {
        match ev[i] {
            EventV::Text { text } => {
                lemma_parse_funcpointer_tail_advances(
                    ev,
                    i + 1,
                    FuncPointerV { text: f.text + text, ..f },
                );
            },
            EventV::Start { name, attrs } => {
                match spec_expect_text(ev, i + 1, "funcpointer"@) {
                    Ok(t) => match spec_expect_end(ev, i + 2, "type"@, "funcpointer"@) {
                        Ok(j) => lemma_parse_funcpointer_tail_advances(
                            ev,
                            j,
                            FuncPointerV { text: f.text + seq![' '] + t + seq![' '], ..f },
                        ),
                        Err(e) => {},
                    },
                    Err(e) => {},
                }
            },
            _ => {},
        }
    }
}

/// A funcpointer body only ever moves the cursor forward.
pub proof fn lemma_parse_funcpointer_body_advances(ev: Seq<EventV>, i: int, f: FuncPointerV)
    ensures
        parse_funcpointer_body(ev, i, f) matches Ok(q) ==> i < q.1 <= ev.len(),
{
    match spec_expect_text(ev, i, "funcpointer"@) {
        Ok(t0) => {
            match spec_expect_text_element(ev, i + 1, "name"@, "funcpointer"@) {
                Ok((nm, j)) => {
                    lemma_parse_funcpointer_tail_advances(
                        ev,
                        j,
                        FuncPointerV { name: nm, text: t0 + seq![' '] + nm + seq![' '], ..f },
                    );
                },
                Err(e) => {},
            }
        },
        Err(e) => {},
    }
}

/// Consumes the body of a funcpointer type.
#[verifier::loop_isolation(false)]
fn do_type_start_funcpointer_body(f: &mut FuncPointer, events: &Vec<XmlEvent>, pos: usize) -> (r:
    Result<usize, ParseError>)
    ensures
        match r {
            Ok(j) => parse_funcpointer_body(events_view(events@), pos as int, old(f)@) == Ok::<
                _,
                ErrV,
            >((final(f)@, j as int)),
            Err(e) => parse_funcpointer_body(events_view(events@), pos as int, old(f)@) == Err::<
                (FuncPointerV, int),
                ErrV,
            >(e@),
        },
{
    let ghost ev = events_view(events@);
    let ghost f0 = old(f)@;
    let n = events.len();
    let t0 = match expect_text(events, pos, "funcpointer") {
        Ok(t) => t,
        Err(e) => {
            return Err(e);
        },
    };
    proof {
        if pos as int >= ev.len() {
            assert(spec_expect_text(ev, pos as int, "funcpointer"@) is Err);
        }
        assert(pos < n);
    }
    let (nm, j) = match expect_text_element(events, pos + 1, "name", "funcpointer") {
        Ok(q) => q,
        Err(e) => {
            return Err(e);
        },
    };
    proof {
        reveal_strlit(" ");
        assert((" "@) =~= seq![' ']);
    }
    f.text = t0;
    f.text.append(" ");
    f.text.append(nm.as_str());
    f.text.append(" ");
    f.name = nm;
    let ghost ft0 = f@;
    let mut cur = j;
    loop
        invariant
            j <= cur,
            parse_funcpointer_tail(ev, cur as int, f@) == parse_funcpointer_tail(ev, j as int, ft0),
            parse_funcpointer_body(ev, pos as int, f0) == parse_funcpointer_tail(ev, j as int, ft0),
        decreases ev.len() - cur,
    {
        if cur >= events.len() {
            return Err(ParseError::UnexpectedElement {
                tag: String::new(),
                context: "funcpointer".to_owned(),
            });
        }
        proof {
            assert(ev[cur as int] == events@[cur as int]@);
            reveal_strlit(" ");
            assert((" "@) =~= seq![' ']);
        }
        match &events[cur] {
            XmlEvent::End { name: n } => {
                if str_eq(n.as_str(), "type") {
                    if f.name.as_str().is_empty() {
                        return Err(ParseError::MissingRequiredAttribute {
                            name: "name".to_owned(),
                            record_kind: "FuncPointer".to_owned(),
                        });
                    }
                    let cleaned = cleanup_declaration_text(f.text.as_str());
                    f.text = cleaned;
                    return Ok(cur + 1);
                } else {
                    return Err(ParseError::UnexpectedElement {
                        tag: n.clone(),
                        context: "funcpointer".to_owned(),
                    });
                }
            },
            XmlEvent::Text { text: t } => {
                f.text.append(t.as_str());
            },
            XmlEvent::Start { name: n, attrs: a } => {
                if str_eq(n.as_str(), "type") && a.as_str().is_empty() {
                    let t = match expect_text(events, cur + 1, "funcpointer") {
                        Ok(t) => t,
                        Err(e) => {
                            return Err(e);
                        },
                    };
                    match expect_end(events, cur + 2, "type", "funcpointer") {
                        Ok(k) => {
                            f.text.append(" ");
                            f.text.append(t.as_str());
                            f.text.append(" ");
                            cur = k;
                            continue ;
                        },
                        Err(e) => {
                            return Err(e);
                        },
                    }
                } else {
                    return Err(ParseError::UnexpectedElement {
                        tag: n.clone(),
                        context: "funcpointer".to_owned(),
                    });
                }
            },
            e => {
                return Err(ParseError::UnexpectedElement {
                    tag: exec_ev_tag(e),
                    context: "funcpointer".to_owned(),
                });
            },
        }
        cur += 1;
    }
}

/// An empty `<type/>` tag, classified by its `category` attribute: no
/// category means an externally declared type, `handle` and `struct` mean
/// aliases, `bitmask` and `enum` are aliases when an `alias` key is present
/// and otherwise flags types or enumerations (an `enum` whose name speaks
/// of flags is a flags type).
pub open spec fn spec_type_empty(attrs: Seq<char>) -> Result<TypeEntryV, ErrV> {
    let aps = attrs_of(attrs);
    match first_val(aps, "category"@) {
        None => match extern_type_from_pairs(aps) {
            Ok(x) => Ok(TypeEntryV::ExternType(x)),
            Err(e) => Err(e),
        },
        Some(c) => if c == "handle"@ || c == "struct"@ {
            match type_alias_from_pairs(aps) {
                Ok(x) => Ok(TypeEntryV::TypeAlias(x)),
                Err(e) => Err(e),
            }
        } else if c == "include"@ {
            match include_from_pairs(aps) {
                Ok(x) => Ok(TypeEntryV::Include(x)),
                Err(e) => Err(e),
            }
        } else if c == "bitmask"@ {
            if found(aps, "alias"@) {
                match type_alias_from_pairs(aps) {
                    Ok(x) => Ok(TypeEntryV::TypeAlias(x)),
                    Err(e) => Err(e),
                }
            } else {
                match bitmask_from_pairs(aps) {
                    Ok(x) => if x.name.len() == 0 {
                        Err(missing_err("name"@, "Bitmask"@))
                    } else {
                        Ok(TypeEntryV::Bitmask(x))
                    },
                    Err(e) => Err(e),
                }
            }
        } else if c == "enum"@ {
            if found(aps, "alias"@) {
                match type_alias_from_pairs(aps) {
                    Ok(x) => Ok(TypeEntryV::TypeAlias(x)),
                    Err(e) => Err(e),
                }
            } else {
                match first_val(aps, "name"@) {
                    None => Err(missing_err("name"@, "Enumeration"@)),
                    Some(n) => if contains_seq(n, "Flags"@) || contains_seq(n, "FlagBits"@) {
                        match bitmask_from_pairs(aps) {
                            Ok(x) => if x.name.len() == 0 {
                                Err(missing_err("name"@, "Bitmask"@))
                            } else {
                                Ok(TypeEntryV::Bitmask(x))
                            },
                            Err(e) => Err(e),
                        }
                    } else {
                        match enumeration_from_pairs(aps) {
                            Ok(x) => Ok(TypeEntryV::Enumeration(x)),
                            Err(e) => Err(e),
                        }
                    },
                }
            }
        } else {
            Err(malformed_err("category"@, c))
        },
    }
}

/// Classifies one empty `<type/>` tag into a type entry.
pub fn do_type_empty(attrs: &str) -> (r: Result<TypeEntry, ParseError>)
    ensures
        res_view(r) == spec_type_empty(attrs@),
{
    let pairs = decode_attrs(attrs);
    match find_attr_value(&pairs, "category") {
        None => match ExternType::from_pairs(&pairs) {
            Ok(x) => Ok(TypeEntry::ExternType(x)),
            Err(e) => Err(e),
        },
        Some(c) => {
            if str_eq(c.as_str(), "handle") || str_eq(c.as_str(), "struct") {
                match TypeAlias::from_pairs(&pairs) {
                    Ok(x) => Ok(TypeEntry::TypeAlias(x)),
                    Err(e) => Err(e),
                }
            } else if str_eq(c.as_str(), "include") {
                match Include::from_pairs(&pairs) {
                    Ok(x) => Ok(TypeEntry::Include(x)),
                    Err(e) => Err(e),
                }
            } else if str_eq(c.as_str(), "bitmask") {
                if has_attr_key(&pairs, "alias") {
                    match TypeAlias::from_pairs(&pairs) {
                        Ok(x) => Ok(TypeEntry::TypeAlias(x)),
                        Err(e) => Err(e),
                    }
                } else {
                    match Bitmask::from_pairs(&pairs) {
                        Ok(x) => {
                            if x.name.as_str().is_empty() {
                                Err(ParseError::MissingRequiredAttribute {
                                    name: "name".to_owned(),
                                    record_kind: "Bitmask".to_owned(),
                                })
                            } else {
                                Ok(TypeEntry::Bitmask(x))
                            }
                        },
                        Err(e) => Err(e),
                    }
                }
            } else if str_eq(c.as_str(), "enum") {
                if has_attr_key(&pairs, "alias") {
                    match TypeAlias::from_pairs(&pairs) {
                        Ok(x) => Ok(TypeEntry::TypeAlias(x)),
                        Err(e) => Err(e),
                    }
                } else {
                    match find_attr_value(&pairs, "name") {
                        None => Err(ParseError::MissingRequiredAttribute {
                            name: "name".to_owned(),
                            record_kind: "Enumeration".to_owned(),
                        }),
                        Some(n) => {
                            if str_contains(n.as_str(), "Flags") || str_contains(
                                n.as_str(),
                                "FlagBits",
                            ) {
                                match Bitmask::from_pairs(&pairs) {
                                    Ok(x) => {
                                        if x.name.as_str().is_empty() {
                                            Err(ParseError::MissingRequiredAttribute {
                                                name: "name".to_owned(),
                                                record_kind: "Bitmask".to_owned(),
                                            })
                                        } else {
                                            Ok(TypeEntry::Bitmask(x))
                                        }
                                    },
                                    Err(e) => Err(e),
                                }
                            } else {
                                match Enumeration::from_pairs(&pairs) {
                                    Ok(x) => Ok(TypeEntry::Enumeration(x)),
                                    Err(e) => Err(e),
                                }
                            }
                        },
                    }
                }
            } else {
                Err(ParseError::MalformedAttributeValue {
                    key: "category".to_owned(),
                    raw_value: c,
                })
            }
        },
    }
}

/// The body of the `<types>` section: comment blocks, started `<type>`
/// elements dispatched by their `category`, and empty `<type/>` tags,
/// through the closing tag.
pub open spec fn parse_types(ev: Seq<EventV>, i: int, ts: Seq<TypeEntryV>) -> Result<
    (Seq<TypeEntryV>, int),
    ErrV,
>
    decreases ev.len() - i,
    via parse_types_dec
{
    if i < 0 || i >= ev.len() {
        Err(end_err("types"@))
    } else {
        match ev[i] {
            EventV::End { name } => if name == "types"@ {
                Ok((ts, i + 1))
            } else {
                Err(elem_err(name, "types"@))
            },
            EventV::Start { name, attrs } => if name == "comment"@ && attrs.len() == 0 {
                match skip_comment(ev, i + 1) {
                    Ok(j) => parse_types(ev, j, ts),
                    Err(e) => Err(e),
                }
            } else if name == "type"@ {
                let aps = attrs_of(attrs);
                match first_val(aps, "category"@) {
                    None => Err(missing_err("category"@, "type"@)),
                    Some(c) => if c == "include"@ {
                        match include_from_pairs(aps) {
                            Ok(x) => match parse_include_body(ev, i + 1, x) {
                                Ok((x2, j)) => parse_types(ev, j, ts.push(TypeEntryV::Include(x2))),
                                Err(e) => Err(e),
                            },
                            Err(e) => Err(e),
                        }
                    } else if c == "define"@ {
                        match cpp_define_from_pairs(aps) {
                            Ok(x) => match parse_define_body(ev, i + 1, x) {
                                Ok((x2, j)) => parse_types(
                                    ev,
                                    j,
                                    ts.push(TypeEntryV::CppDefine(x2)),
                                ),
                                Err(e) => Err(e),
                            },
                            Err(e) => Err(e),
                        }
                    } else if c == "basetype"@ {
                        match base_type_from_pairs(aps) {
                            Ok(x) => match parse_base_body(ev, i + 1, x) {
                                Ok((x2, j)) => parse_types(ev, j, ts.push(TypeEntryV::BaseType(x2))),
                                Err(e) => Err(e),
                            },
                            Err(e) => Err(e),
                        }
                    } else if c == "bitmask"@ {
                        match bitmask_from_pairs(aps) {
                            Ok(x) => match parse_bitmask_body(ev, i + 1, x) {
                                Ok((x2, j)) => parse_types(ev, j, ts.push(TypeEntryV::Bitmask(x2))),
                                Err(e) => Err(e),
                            },
                            Err(e) => Err(e),
                        }
                    } else if c == "handle"@ {
                        match handle_from_pairs(aps) {
                            Ok(x) => match parse_handle_body(ev, i + 1, x) {
                                Ok((x2, j)) => parse_types(ev, j, ts.push(TypeEntryV::Handle(x2))),
                                Err(e) => Err(e),
                            },
                            Err(e) => Err(e),
                        }
                    } else if c == "funcpointer"@ {
                        match func_pointer_from_pairs(aps) {
                            Ok(x) => match parse_funcpointer_body(ev, i + 1, x) {
                                Ok((x2, j)) => parse_types(
                                    ev,
                                    j,
                                    ts.push(TypeEntryV::FuncPointer(x2)),
                                ),
                                Err(e) => Err(e),
                            },
                            Err(e) => Err(e),
                        }
                    } else if c == "struct"@ {
                        match structure_from_pairs(aps) {
                            Ok(x) => match parse_structure_body(ev, i + 1, x) {
                                Ok((x2, j)) => parse_types(
                                    ev,
                                    j,
                                    ts.push(TypeEntryV::Structure(x2)),
                                ),
                                Err(e) => Err(e),
                            },
                            Err(e) => Err(e),
                        }
                    } else if c == "union"@ {
                        match union_from_pairs(aps) {
                            Ok(x) => match parse_union_body(ev, i + 1, x) {
                                Ok((x2, j)) => parse_types(ev, j, ts.push(TypeEntryV::Union(x2))),
                                Err(e) => Err(e),
                            },
                            Err(e) => Err(e),
                        }
                    } else {
                        Err(malformed_err("category"@, c))
                    },
                }
            } else {
                Err(elem_err(name, "types"@))
            },
            EventV::Empty { name, attrs } => if name == "type"@ {
                match spec_type_empty(attrs) {
                    Ok(t) => parse_types(ev, i + 1, ts.push(t)),
                    Err(e) => Err(e),
                }
            } else {
                Err(elem_err(name, "types"@))
            },
            e => Err(elem_err(ev_tag(e), "types"@)),
        }
    }
}

#[via_fn]
proof fn parse_types_dec(ev: Seq<EventV>, i: int, ts: Seq<TypeEntryV>) {
    if 0 <= i < ev.len() {
        match ev[i] {
            EventV::Start { name, attrs } => {
                if name == "comment"@ && attrs.len() == 0 {
                    lemma_skip_comment_advances(ev, i + 1);
                } else if name == "type"@ {
                    let aps = attrs_of(attrs);
                    match first_val(aps, "category"@) {
                        None => {},
                        Some(c) => {
                            match include_from_pairs(aps) {
                                Ok(x) => lemma_parse_include_body_advances(ev, i + 1, x),
                                Err(e) => {},
                            }
                            match cpp_define_from_pairs(aps) {
                                Ok(x) => lemma_parse_define_body_advances(ev, i + 1, x),
                                Err(e) => {},
                            }
                            match base_type_from_pairs(aps) {
                                Ok(x) => lemma_parse_base_body_advances(ev, i + 1, x),
                                Err(e) => {},
                            }
                            match bitmask_from_pairs(aps) {
                                Ok(x) => lemma_parse_bitmask_body_advances(ev, i + 1, x),
                                Err(e) => {},
                            }
                            match handle_from_pairs(aps) {
                                Ok(x) => lemma_parse_handle_body_advances(ev, i + 1, x),
                                Err(e) => {},
                            }
                            match func_pointer_from_pairs(aps) {
                                Ok(x) => lemma_parse_funcpointer_body_advances(ev, i + 1, x),
                                Err(e) => {},
                            }
                            match structure_from_pairs(aps) {
                                Ok(x) => lemma_parse_structure_body_advances(ev, i + 1, x),
                                Err(e) => {},
                            }
                            match union_from_pairs(aps) {
                                Ok(x) => lemma_parse_union_body_advances(ev, i + 1, x),
                                Err(e) => {},
                            }
                        },
                    }
                }
            },
            _ => {},
        }
    }
}

/// A `<types>` section whose opening tag carries `attrs`: the tag may only
/// hold a `comment` attribute, then the body runs to the closing tag.
pub open spec fn spec_do_types(
    ev: Seq<EventV>,
    i: int,
    attrs: Seq<char>,
    ts: Seq<TypeEntryV>,
) -> Result<(Seq<TypeEntryV>, int), ErrV> {
    match first_err_by(attrs_of(attrs), crate::attrs::comment_only_checker("types"@)) {
        Some(e) => Err(e),
        None => parse_types(ev, i, ts),
    }
}

/// Consumes a `<types>` section, appending each type entry in document
/// order.
#[verifier::loop_isolation(false)]
pub fn do_types(
    types: &mut Vec<TypeEntry>,
    attrs: &str,
    events: &Vec<XmlEvent>,
    pos: usize,
) -> (r: Result<usize, ParseError>)
    ensures
        match r {
            Ok(j) => spec_do_types(
                events_view(events@),
                pos as int,
                attrs@,
                seq_view(old(types)@),
            ) == Ok::<_, ErrV>((seq_view(final(types)@), j as int)),
            Err(e) => spec_do_types(
                events_view(events@),
                pos as int,
                attrs@,
                seq_view(old(types)@),
            ) == Err::<(Seq<TypeEntryV>, int), ErrV>(e@),
        },
{
    if let Some(e) = crate::attrs::check_comment_only(attrs, "types") {
        return Err(e);
    }
    let ghost ev = events_view(events@);
    let ghost ts0 = seq_view(old(types)@);
    let mut cur = pos;
    loop
        invariant
            pos <= cur,
            parse_types(ev, cur as int, seq_view(types@)) == parse_types(ev, pos as int, ts0),
        decreases ev.len() - cur,
    {
        if cur >= events.len() {
            return Err(ParseError::UnexpectedElement {
                tag: String::new(),
                context: "types".to_owned(),
            });
        }
        proof {
            assert(ev[cur as int] == events@[cur as int]@);
        }
        match &events[cur] {
            XmlEvent::End { name: n } => {
                if str_eq(n.as_str(), "types") {
                    return Ok(cur + 1);
                } else {
                    return Err(ParseError::UnexpectedElement {
                        tag: n.clone(),
                        context: "types".to_owned(),
                    });
                }
            },
            XmlEvent::Start { name: n, attrs: a } => {
                if str_eq(n.as_str(), "comment") && a.as_str().is_empty() {
                    match eat_to_end_of_comment(events, cur + 1) {
                        Ok(j) => {
                            proof {
                                lemma_skip_comment_advances(ev, cur as int + 1);
                            }
                            cur = j;
                            continue ;
                        },
                        Err(e) => {
                            return Err(e);
                        },
                    }
                } else if str_eq(n.as_str(), "type") {
                    let pairs = decode_attrs(a.as_str());
                    let c = match find_attr_value(&pairs, "category") {
                        Some(c) => c,
                        None => {
                            return Err(ParseError::MissingRequiredAttribute {
                                name: "category".to_owned(),
                                record_kind: "type".to_owned(),
                            });
                        },
                    };
                    if str_eq(c.as_str(), "include") {
                        let x = match Include::from_pairs(&pairs) {
                            Ok(x) => x,
                            Err(e) => {
                                return Err(e);
                            },
                        };
                        let ghost x0 = x@;
                        match do_type_start_include_body(x, events, cur + 1) {
                            Ok((x2, j)) => {
                                proof {
                                    lemma_parse_include_body_advances(ev, cur as int + 1, x0);
                                    assert(seq_view(types@.push(TypeEntry::Include(x2)))
                                        =~= seq_view(types@).push(TypeEntryV::Include(x2@)));
                                }
                                types.push(TypeEntry::Include(x2));
                                cur = j;
                                continue ;
                            },
                            Err(e) => {
                                return Err(e);
                            },
                        }
                    } else if str_eq(c.as_str(), "define") {
                        let mut x = match CppDefine::from_pairs(&pairs) {
                            Ok(x) => x,
                            Err(e) => {
                                return Err(e);
                            },
                        };
                        let ghost x0 = x@;
                        match do_type_start_define_body(&mut x, events, cur + 1) {
                            Ok(j) => {
                                proof {
                                    lemma_parse_define_body_advances(ev, cur as int + 1, x0);
                                    assert(seq_view(types@.push(TypeEntry::CppDefine(x)))
                                        =~= seq_view(types@).push(TypeEntryV::CppDefine(x@)));
                                }
                                types.push(TypeEntry::CppDefine(x));
                                cur = j;
                                continue ;
                            },
                            Err(e) => {
                                return Err(e);
                            },
                        }
                    } else if str_eq(c.as_str(), "basetype") {
                        let mut x = match BaseType::from_pairs(&pairs) {
                            Ok(x) => x,
                            Err(e) => {
                                return Err(e);
                            },
                        };
                        let ghost x0 = x@;
                        match do_type_start_base_body(&mut x, events, cur + 1) {
                            Ok(j) => {
                                proof {
                                    lemma_parse_base_body_advances(ev, cur as int + 1, x0);
                                    assert(seq_view(types@.push(TypeEntry::BaseType(x)))
                                        =~= seq_view(types@).push(TypeEntryV::BaseType(x@)));
                                }
                                types.push(TypeEntry::BaseType(x));
                                cur = j;
                                continue ;
                            },
                            Err(e) => {
                                return Err(e);
                            },
                        }
                    } else if str_eq(c.as_str(), "bitmask") {
                        let mut x = match Bitmask::from_pairs(&pairs) {
                            Ok(x) => x,
                            Err(e) => {
                                return Err(e);
                            },
                        };
                        let ghost x0 = x@;
                        match do_type_start_bitmask_body(&mut x, events, cur + 1) {
                            Ok(j) => {
                                proof {
                                    lemma_parse_bitmask_body_advances(ev, cur as int + 1, x0);
                                    assert(seq_view(types@.push(TypeEntry::Bitmask(x)))
                                        =~= seq_view(types@).push(TypeEntryV::Bitmask(x@)));
                                }
                                types.push(TypeEntry::Bitmask(x));
                                cur = j;
                                continue ;
                            },
                            Err(e) => {
                                return Err(e);
                            },
                        }
                    } else if str_eq(c.as_str(), "handle") {
                        let mut x = match Handle::from_pairs(&pairs) {
                            Ok(x) => x,
                            Err(e) => {
                                return Err(e);
                            },
                        };
                        let ghost x0 = x@;
                        match do_type_start_handle_body(&mut x, events, cur + 1) {
                            Ok(j) => {
                                proof {
                                    lemma_parse_handle_body_advances(ev, cur as int + 1, x0);
                                    assert(seq_view(types@.push(TypeEntry::Handle(x)))
                                        =~= seq_view(types@).push(TypeEntryV::Handle(x@)));
                                }
                                types.push(TypeEntry::Handle(x));
                                cur = j;
                                continue ;
                            },
                            Err(e) => {
                                return Err(e);
                            },
                        }
                    } else if str_eq(c.as_str(), "funcpointer") {
                        let mut x = match FuncPointer::from_pairs(&pairs) {
                            Ok(x) => x,
                            Err(e) => {
                                return Err(e);
                            },
                        };
                        let ghost x0 = x@;
                        match do_type_start_funcpointer_body(&mut x, events, cur + 1) {
                            Ok(j) => {
                                proof {
                                    lemma_parse_funcpointer_body_advances(ev, cur as int + 1, x0);
                                    assert(seq_view(types@.push(TypeEntry::FuncPointer(x)))
                                        =~= seq_view(types@).push(TypeEntryV::FuncPointer(x@)));
                                }
                                types.push(TypeEntry::FuncPointer(x));
                                cur = j;
                                continue ;
                            },
                            Err(e) => {
                                return Err(e);
                            },
                        }
                    } else if str_eq(c.as_str(), "struct") {
                        let mut x = match Structure::from_pairs(&pairs) {
                            Ok(x) => x,
                            Err(e) => {
                                return Err(e);
                            },
                        };
                        let ghost x0 = x@;
                        match do_type_start_struct_body(&mut x, events, cur + 1) {
                            Ok(j) => {
                                proof {
                                    lemma_parse_structure_body_advances(ev, cur as int + 1, x0);
                                    assert(seq_view(types@.push(TypeEntry::Structure(x)))
                                        =~= seq_view(types@).push(TypeEntryV::Structure(x@)));
                                }
                                types.push(TypeEntry::Structure(x));
                                cur = j;
                                continue ;
                            },
                            Err(e) => {
                                return Err(e);
                            },
                        }
                    } else if str_eq(c.as_str(), "union") {
                        let mut x = match Union::from_pairs(&pairs) {
                            Ok(x) => x,
                            Err(e) => {
                                return Err(e);
                            },
                        };
                        let ghost x0 = x@;
                        match do_type_start_union_body(&mut x, events, cur + 1) {
                            Ok(j) => {
                                proof {
                                    lemma_parse_union_body_advances(ev, cur as int + 1, x0);
                                    assert(seq_view(types@.push(TypeEntry::Union(x)))
                                        =~= seq_view(types@).push(TypeEntryV::Union(x@)));
                                }
                                types.push(TypeEntry::Union(x));
                                cur = j;
                                continue ;
                            },
                            Err(e) => {
                                return Err(e);
                            },
                        }
                    } else {
                        return Err(ParseError::MalformedAttributeValue {
                            key: "category".to_owned(),
                            raw_value: c,
                        });
                    }
                } else {
                    return Err(ParseError::UnexpectedElement {
                        tag: n.clone(),
                        context: "types".to_owned(),
                    });
                }
            },
            XmlEvent::Empty { name: n, attrs: a } => {
                if str_eq(n.as_str(), "type") {
                    match do_type_empty(a.as_str()) {
                        Ok(t) => {
                            proof {
                                assert(seq_view(types@.push(t)) =~= seq_view(types@).push(t@));
                            }
                            types.push(t);
                        },
                        Err(e) => {
                            return Err(e);
                        },
                    }
                } else {
                    return Err(ParseError::UnexpectedElement {
                        tag: n.clone(),
                        context: "types".to_owned(),
                    });
                }
            },
            e => {
                return Err(ParseError::UnexpectedElement {
                    tag: exec_ev_tag(e),
                    context: "types".to_owned(),
                });
            },
        }
        cur += 1;
    }
}

/// A `<types>` body only ever moves the cursor forward.
pub proof fn lemma_parse_types_advances(ev: Seq<EventV>, i: int, ts: Seq<TypeEntryV>)
    ensures
        parse_types(ev, i, ts) matches Ok(p) ==> i < p.1 <= ev.len(),
    decreases ev.len() - i,
{
    if 0 <= i < ev.len() {
        match ev[i] {
            EventV::Start { name, attrs } => {
                if name == "comment"@ && attrs.len() == 0 {
                    lemma_skip_comment_advances(ev, i + 1);
                    match skip_comment(ev, i + 1) {
                        Ok(j) => lemma_parse_types_advances(ev, j, ts),
                        Err(e) => {},
                    }
                } else if name == "type"@ {
                    let aps = attrs_of(attrs);
                    match first_val(aps, "category"@) {
                        None => {},
                        Some(c) => {
                            match include_from_pairs(aps) {
                                Ok(x) => {
                                    lemma_parse_include_body_advances(ev, i + 1, x);
                                    match parse_include_body(ev, i + 1, x) {
                                        Ok((x2, j)) => lemma_parse_types_advances(
                                            ev,
                                            j,
                                            ts.push(TypeEntryV::Include(x2)),
                                        ),
                                        Err(e) => {},
                                    }
                                },
                                Err(e) => {},
                            }
                            match cpp_define_from_pairs(aps) {
                                Ok(x) => {
                                    lemma_parse_define_body_advances(ev, i + 1, x);
                                    match parse_define_body(ev, i + 1, x) {
                                        Ok((x2, j)) => lemma_parse_types_advances(
                                            ev,
                                            j,
                                            ts.push(TypeEntryV::CppDefine(x2)),
                                        ),
                                        Err(e) => {},
                                    }
                                },
                                Err(e) => {},
                            }
                            match base_type_from_pairs(aps) {
                                Ok(x) => {
                                    lemma_parse_base_body_advances(ev, i + 1, x);
                                    match parse_base_body(ev, i + 1, x) {
                                        Ok((x2, j)) => lemma_parse_types_advances(
                                            ev,
                                            j,
                                            ts.push(TypeEntryV::BaseType(x2)),
                                        ),
                                        Err(e) => {},
                                    }
                                },
                                Err(e) => {},
                            }
                            match bitmask_from_pairs(aps) {
                                Ok(x) => {
                                    lemma_parse_bitmask_body_advances(ev, i + 1, x);
                                    match parse_bitmask_body(ev, i + 1, x) {
                                        Ok((x2, j)) => lemma_parse_types_advances(
                                            ev,
                                            j,
                                            ts.push(TypeEntryV::Bitmask(x2)),
                                        ),
                                        Err(e) => {},
                                    }
                                },
                                Err(e) => {},
                            }
                            match handle_from_pairs(aps) {
                                Ok(x) => {
                                    lemma_parse_handle_body_advances(ev, i + 1, x);
                                    match parse_handle_body(ev, i + 1, x) {
                                        Ok((x2, j)) => lemma_parse_types_advances(
                                            ev,
                                            j,
                                            ts.push(TypeEntryV::Handle(x2)),
                                        ),
                                        Err(e) => {},
                                    }
                                },
                                Err(e) => {},
                            }
                            match func_pointer_from_pairs(aps) {
                                Ok(x) => {
                                    lemma_parse_funcpointer_body_advances(ev, i + 1, x);
                                    match parse_funcpointer_body(ev, i + 1, x) {
                                        Ok((x2, j)) => lemma_parse_types_advances(
                                            ev,
                                            j,
                                            ts.push(TypeEntryV::FuncPointer(x2)),
                                        ),
                                        Err(e) => {},
                                    }
                                },
                                Err(e) => {},
                            }
                            match structure_from_pairs(aps) {
                                Ok(x) => {
                                    lemma_parse_structure_body_advances(ev, i + 1, x);
                                    match parse_structure_body(ev, i + 1, x) {
                                        Ok((x2, j)) => lemma_parse_types_advances(
                                            ev,
                                            j,
                                            ts.push(TypeEntryV::Structure(x2)),
                                        ),
                                        Err(e) => {},
                                    }
                                },
                                Err(e) => {},
                            }
                            match union_from_pairs(aps) {
                                Ok(x) => {
                                    lemma_parse_union_body_advances(ev, i + 1, x);
                                    match parse_union_body(ev, i + 1, x) {
                                        Ok((x2, j)) => lemma_parse_types_advances(
                                            ev,
                                            j,
                                            ts.push(TypeEntryV::Union(x2)),
                                        ),
                                        Err(e) => {},
                                    }
                                },
                                Err(e) => {},
                            }
                        },
                    }
                }
            },
            EventV::Empty { name, attrs } => {
                if name == "type"@ {
                    match spec_type_empty(attrs) {
                        Ok(t) => lemma_parse_types_advances(ev, i + 1, ts.push(t)),
                        Err(e) => {},
                    }
                }
            },
            _ => {},
        }
    }
}

/// A `<types>` section that closes at once adds nothing: the type list
/// comes back exactly as it went in.
pub proof fn lemma_types_empty_section(ev: Seq<EventV>, i: int, ts: Seq<TypeEntryV>)
    requires
        0 <= i < ev.len(),
        ev[i] == (EventV::End { name: "types"@ }),
    ensures
        parse_types(ev, i, ts) == Ok::<_, ErrV>((ts, i + 1)),
{
}

/// The shape inference run on a member's token events alone: the three
/// phases composed, starting from the record built from the attributes.
pub open spec fn member_shape_run(ev: Seq<EventV>, m0: MemberV) -> Result<(MemberV, int), ErrV> {
    match parse_member_qualifier(ev, 0, m0) {
        Ok((m1, j)) => match parse_member_declarator(ev, j, m1) {
            Ok((m2, k)) => parse_member_suffix(ev, k, m2),
            Err(e) => Err(e),
        },
        Err(e) => Err(e),
    }
}

/// The text tokens that drive shape inference are pairwise distinct.
proof fn shape_token_facts()
    ensures
        "struct"@ != "const"@,
        "struct"@ != "const struct"@,
        "const"@ != "const struct"@,
        "*"@ != "* const*"@,
        "*"@ != "* const *"@,
        "* const*"@ != "* const *"@,
        "["@ != "[2]"@,
        "["@ != "[3]"@,
        "["@ != "[4]"@,
        "["@ != "[3][4]"@,
        "["@ != ":8"@,
        "["@ != ":24"@,
        "[2]"@ != "[3]"@,
        "[2]"@ != "[4]"@,
        "[3]"@ != "[4]"@,
        "[2]"@ != "[3][4]"@,
        "[3]"@ != "[3][4]"@,
        "[4]"@ != "[3][4]"@,
        "[2]"@ != ":8"@,
        "[3]"@ != ":8"@,
        "[4]"@ != ":8"@,
        "[2]"@ != ":24"@,
        "[3]"@ != ":24"@,
        "[4]"@ != ":24"@,
        ":8"@ != ":24"@,
        "[3][4]"@ != ":8"@,
        "[3][4]"@ != ":24"@,
{
    reveal_strlit("struct");
    reveal_strlit("const");
    reveal_strlit("const struct");
    reveal_strlit("*");
    reveal_strlit("* const*");
    reveal_strlit("* const *");
    reveal_strlit("[");
    reveal_strlit("[2]");
    reveal_strlit("[3]");
    reveal_strlit("[4]");
    reveal_strlit("[3][4]");
    reveal_strlit(":8");
    reveal_strlit(":24");
    assert("struct"@.len() == 6);
    assert("const"@.len() == 5);
    assert("const struct"@.len() == 12);
    assert("*"@.len() == 1);
    assert("* const*"@.len() == 8);
    assert("* const *"@.len() == 9);
    assert("["@.len() == 1);
    assert("[2]"@.len() == 3);
    assert("[3]"@.len() == 3);
    assert("[4]"@.len() == 3);
    assert("[3][4]"@.len() == 6);
    assert(":8"@.len() == 2);
    assert(":24"@.len() == 3);
    assert("[2]"@[1] == '2');
    assert("[3]"@[1] == '3');
    assert("[4]"@[1] == '4');
    assert(":24"@[0] == ':');
    assert("[2]"@[0] == '[');
    assert("[3]"@[0] == '[');
    assert("[4]"@[0] == '[');
    assert("struct"@[0] == 's');
    assert("*"@[0] == '*');
}

/// A member whose token run is just the `<type>` and `<name>` sub-elements
/// keeps the plain value shape.
pub proof fn lemma_member_shape_value(m0: MemberV, ty: Seq<char>, nm: Seq<char>)
    requires
        m0.ty_variant == TypeVariantV::Normal,
        nm.len() > 0,
    ensures
        member_shape_run(
            seq![
                EventV::Start { name: "type"@, attrs: Seq::empty() },
                EventV::Text { text: ty },
                EventV::End { name: "type"@ },
                EventV::Start { name: "name"@, attrs: Seq::empty() },
                EventV::Text { text: nm },
                EventV::End { name: "name"@ },
                EventV::End { name: "member"@ },
            ],
            m0,
        ) == Ok::<(MemberV, int), ErrV>((MemberV { ty, name: nm, ..m0 }, 7)),
{
    reveal_with_fuel(parse_member_qualifier, 8);
    reveal_with_fuel(parse_member_declarator, 8);
    reveal_with_fuel(parse_member_suffix, 8);
}

/// A lone `*` after the type gives a mutable pointer.
pub proof fn lemma_member_shape_mut_ptr(m0: MemberV, ty: Seq<char>, nm: Seq<char>)
    requires
        m0.ty_variant == TypeVariantV::Normal,
        nm.len() > 0,
    ensures
        member_shape_run(
            seq![
                EventV::Start { name: "type"@, attrs: Seq::empty() },
                EventV::Text { text: ty },
                EventV::End { name: "type"@ },
                EventV::Text { text: "*"@ },
                EventV::Start { name: "name"@, attrs: Seq::empty() },
                EventV::Text { text: nm },
                EventV::End { name: "name"@ },
                EventV::End { name: "member"@ },
            ],
            m0,
        ) == Ok::<(MemberV, int), ErrV>(
            (MemberV { ty, name: nm, ty_variant: TypeVariantV::MutPtr, ..m0 }, 8),
        ),
{
    reveal_with_fuel(parse_member_qualifier, 8);
    reveal_with_fuel(parse_member_declarator, 8);
    reveal_with_fuel(parse_member_suffix, 8);
    shape_token_facts();
}

/// A leading `const` with a single `*` gives a const pointer.
pub proof fn lemma_member_shape_const_ptr(m0: MemberV, ty: Seq<char>, nm: Seq<char>)
    requires
        m0.ty_variant == TypeVariantV::Normal,
        nm.len() > 0,
    ensures
        member_shape_run(
            seq![
                EventV::Text { text: "const"@ },
                EventV::Start { name: "type"@, attrs: Seq::empty() },
                EventV::Text { text: ty },
                EventV::End { name: "type"@ },
                EventV::Text { text: "*"@ },
                EventV::Start { name: "name"@, attrs: Seq::empty() },
                EventV::Text { text: nm },
                EventV::End { name: "name"@ },
                EventV::End { name: "member"@ },
            ],
            m0,
        ) == Ok::<(MemberV, int), ErrV>(
            (MemberV { ty, name: nm, ty_variant: TypeVariantV::ConstPtr, ..m0 }, 9),
        ),
{
    reveal_with_fuel(parse_member_qualifier, 8);
    reveal_with_fuel(parse_member_declarator, 8);
    reveal_with_fuel(parse_member_suffix, 8);
    shape_token_facts();
}

/// A leading `const` with a `* const*` run gives a const pointer to a
/// const pointer.
pub proof fn lemma_member_shape_const_ptr_const_ptr(m0: MemberV, ty: Seq<char>, nm: Seq<char>)
    requires
        m0.ty_variant == TypeVariantV::Normal,
        nm.len() > 0,
    ensures
        member_shape_run(
            seq![
                EventV::Text { text: "const"@ },
                EventV::Start { name: "type"@, attrs: Seq::empty() },
                EventV::Text { text: ty },
                EventV::End { name: "type"@ },
                EventV::Text { text: "* const*"@ },
                EventV::Start { name: "name"@, attrs: Seq::empty() },
                EventV::Text { text: nm },
                EventV::End { name: "name"@ },
                EventV::End { name: "member"@ },
            ],
            m0,
        ) == Ok::<(MemberV, int), ErrV>(
            (MemberV { ty, name: nm, ty_variant: TypeVariantV::ConstPtrConstPtr, ..m0 }, 9),
        ),
{
    reveal_with_fuel(parse_member_qualifier, 8);
    reveal_with_fuel(parse_member_declarator, 8);
    reveal_with_fuel(parse_member_suffix, 8);
    shape_token_facts();
}

/// Literal bracket suffixes give the matching fixed arrays, and the 2-D
/// marker gives the nested array.
pub proof fn lemma_member_shape_arrays(m0: MemberV, ty: Seq<char>, nm: Seq<char>)
    requires
        m0.ty_variant == TypeVariantV::Normal,
        nm.len() > 0,
    ensures
        member_shape_run(
            seq![
                EventV::Start { name: "type"@, attrs: Seq::empty() },
                EventV::Text { text: ty },
                EventV::End { name: "type"@ },
                EventV::Start { name: "name"@, attrs: Seq::empty() },
                EventV::Text { text: nm },
                EventV::End { name: "name"@ },
                EventV::Text { text: "[2]"@ },
                EventV::End { name: "member"@ },
            ],
            m0,
        ) == Ok::<(MemberV, int), ErrV>(
            (MemberV { ty, name: nm, ty_variant: TypeVariantV::ArrayInt(2), ..m0 }, 8),
        ),
        member_shape_run(
            seq![
                EventV::Start { name: "type"@, attrs: Seq::empty() },
                EventV::Text { text: ty },
                EventV::End { name: "type"@ },
                EventV::Start { name: "name"@, attrs: Seq::empty() },
                EventV::Text { text: nm },
                EventV::End { name: "name"@ },
                EventV::Text { text: "[3]"@ },
                EventV::End { name: "member"@ },
            ],
            m0,
        ) == Ok::<(MemberV, int), ErrV>(
            (MemberV { ty, name: nm, ty_variant: TypeVariantV::ArrayInt(3), ..m0 }, 8),
        ),
        member_shape_run(
            seq![
                EventV::Start { name: "type"@, attrs: Seq::empty() },
                EventV::Text { text: ty },
                EventV::End { name: "type"@ },
                EventV::Start { name: "name"@, attrs: Seq::empty() },
                EventV::Text { text: nm },
                EventV::End { name: "name"@ },
                EventV::Text { text: "[4]"@ },
                EventV::End { name: "member"@ },
            ],
            m0,
        ) == Ok::<(MemberV, int), ErrV>(
            (MemberV { ty, name: nm, ty_variant: TypeVariantV::ArrayInt(4), ..m0 }, 8),
        ),
        member_shape_run(
            seq![
                EventV::Start { name: "type"@, attrs: Seq::empty() },
                EventV::Text { text: ty },
                EventV::End { name: "type"@ },
                EventV::Start { name: "name"@, attrs: Seq::empty() },
                EventV::Text { text: nm },
                EventV::End { name: "name"@ },
                EventV::Text { text: "[3][4]"@ },
                EventV::End { name: "member"@ },
            ],
            m0,
        ) == Ok::<(MemberV, int), ErrV>(
            (MemberV { ty, name: nm, ty_variant: TypeVariantV::ArrayArrayInt(3, 4), ..m0 }, 8),
        ),
{
    reveal_with_fuel(parse_member_qualifier, 8);
    reveal_with_fuel(parse_member_declarator, 8);
    reveal_with_fuel(parse_member_suffix, 8);
    shape_token_facts();
}

/// A bracketed `<enum>` run names a symbolic array length, valid only from
/// the plain value shape.
pub proof fn lemma_member_shape_sym_array(m0: MemberV, ty: Seq<char>, nm: Seq<char>, sym: Seq<char>)
    requires
        m0.ty_variant == TypeVariantV::Normal,
        nm.len() > 0,
    ensures
        member_shape_run(
            seq![
                EventV::Start { name: "type"@, attrs: Seq::empty() },
                EventV::Text { text: ty },
                EventV::End { name: "type"@ },
                EventV::Start { name: "name"@, attrs: Seq::empty() },
                EventV::Text { text: nm },
                EventV::End { name: "name"@ },
                EventV::Text { text: "["@ },
                EventV::Start { name: "enum"@, attrs: Seq::empty() },
                EventV::Text { text: sym },
                EventV::End { name: "enum"@ },
                EventV::Text { text: "]"@ },
                EventV::End { name: "member"@ },
            ],
            m0,
        ) == Ok::<(MemberV, int), ErrV>(
            (MemberV { ty, name: nm, ty_variant: TypeVariantV::ArraySym(sym), ..m0 }, 12),
        ),
{
    reveal_with_fuel(parse_member_qualifier, 8);
    reveal_with_fuel(parse_member_declarator, 8);
    reveal_with_fuel(parse_member_suffix, 8);
    shape_token_facts();
}

/// The bitfield markers record the width without touching the shape.
pub proof fn lemma_member_shape_bitfields(m0: MemberV, ty: Seq<char>, nm: Seq<char>)
    requires
        nm.len() > 0,
    ensures
        member_shape_run(
            seq![
                EventV::Start { name: "type"@, attrs: Seq::empty() },
                EventV::Text { text: ty },
                EventV::End { name: "type"@ },
                EventV::Start { name: "name"@, attrs: Seq::empty() },
                EventV::Text { text: nm },
                EventV::End { name: "name"@ },
                EventV::Text { text: ":8"@ },
                EventV::End { name: "member"@ },
            ],
            m0,
        ) == Ok::<(MemberV, int), ErrV>(
            (MemberV { ty, name: nm, bitfields: Some(8u32), ..m0 }, 8),
        ),
        member_shape_run(
            seq![
                EventV::Start { name: "type"@, attrs: Seq::empty() },
                EventV::Text { text: ty },
                EventV::End { name: "type"@ },
                EventV::Start { name: "name"@, attrs: Seq::empty() },
                EventV::Text { text: nm },
                EventV::End { name: "name"@ },
                EventV::Text { text: ":24"@ },
                EventV::End { name: "member"@ },
            ],
            m0,
        ) == Ok::<(MemberV, int), ErrV>(
            (MemberV { ty, name: nm, bitfields: Some(24u32), ..m0 }, 8),
        ),
{
    reveal_with_fuel(parse_member_qualifier, 8);
    reveal_with_fuel(parse_member_declarator, 8);
    reveal_with_fuel(parse_member_suffix, 8);
    shape_token_facts();
}

/// A member token run that opens with anything but a qualifier keyword or
/// the `<type>` sub-element fails closed.
pub proof fn lemma_member_shape_rejects_unknown_lead(m0: MemberV, t: Seq<char>)
    requires
        t != "struct"@,
        t != "const"@,
        t != "const struct"@,
    ensures
        forall|rest: Seq<EventV>|
            #[trigger] member_shape_run(seq![EventV::Text { text: t }] + rest, m0) matches Err(_),
{
    assert forall|rest: Seq<EventV>|
        #[trigger] member_shape_run(seq![EventV::Text { text: t }] + rest, m0) matches Err(_) by {
        reveal_with_fuel(parse_member_qualifier, 2);
        let ev = seq![EventV::Text { text: t }] + rest;
        assert(ev[0] == (EventV::Text { text: t }));
    }
}

} // verus!
