//! The `<extensions>` section: optional capability sets.

use vstd::prelude::*;

use crate::attrs::{
    attrs_of, attrs_view, decode_attrs, first_err_by, found, keys_distinct, last_val,
    lemma_first_err_by_permutation_none, lemma_last_val_permutation, or_empty, opt_view,
    seq_view, Attr, AttrV,
};
use crate::errors::{malformed_err, missing_err, res_view, ErrV, ParseError};
use crate::utils::{str_eq};
use crate::attrs::{check_comment_only, comment_only_checker};
use crate::errors::{elem_err, end_err};
use crate::events::{events_view, ev_tag, exec_ev_tag, EventV, XmlEvent};
use crate::feature::{
    do_require_items, lemma_parse_require_items_advances, parse_require_items,
    requirement_from_pairs, Requirement, RequirementV,
};

verus! {

/// Whether an extension extends the instance or the device level of the API.
#[derive(Debug, Clone, Copy, PartialEq, Eq)]
pub enum ExtensionType {
    Instance,
    Device,
}

/// The extension type read from a `type` attribute value, defaulting to
/// `Instance` when the attribute is absent.
pub open spec fn ty_of(o: Option<Seq<char>>) -> ExtensionType {
    match o {
        Some(v) => if v == "instance"@ {
            ExtensionType::Instance
        } else if v == "device"@ {
            ExtensionType::Device
        } else {
            ExtensionType::Instance
        },
        None => ExtensionType::Instance,
    }
}

/// An extension: a named capability set outside any feature level.
#[derive(Debug, Clone, PartialEq, Eq)]
pub struct Extension {
    pub name: String,
    pub number: String,
    pub ty: ExtensionType,
    pub author: String,
    pub contact: String,
    pub supported: String,
    pub requirements: Vec<Requirement>,
    pub depends: Option<String>,
    pub platform: Option<String>,
    pub comment: Option<String>,
    pub special_use: Option<String>,
    pub deprecated_by: Option<String>,
    pub promoted_to: Option<String>,
    pub obsoleted_by: Option<String>,
    pub provisional: bool,
    pub sort_order: Option<String>,
}

/// The mathematical value of a [`Extension`].
pub ghost struct ExtensionV {
    pub name: Seq<char>,
    pub number: Seq<char>,
    pub ty: ExtensionType,
    pub author: Seq<char>,
    pub contact: Seq<char>,
    pub supported: Seq<char>,
    pub requirements: Seq<RequirementV>,
    pub depends: Option<Seq<char>>,
    pub platform: Option<Seq<char>>,
    pub comment: Option<Seq<char>>,
    pub special_use: Option<Seq<char>>,
    pub deprecated_by: Option<Seq<char>>,
    pub promoted_to: Option<Seq<char>>,
    pub obsoleted_by: Option<Seq<char>>,
    pub provisional: bool,
    pub sort_order: Option<Seq<char>>,
}

impl View for Extension {
    type V = ExtensionV;

    open spec fn view(&self) -> ExtensionV {
        ExtensionV {
            name: self.name@,
            number: self.number@,
            ty: self.ty,
            author: self.author@,
            contact: self.contact@,
            supported: self.supported@,
            requirements: seq_view(self.requirements@),
            depends: opt_view(self.depends),
            platform: opt_view(self.platform),
            comment: opt_view(self.comment),
            special_use: opt_view(self.special_use),
            deprecated_by: opt_view(self.deprecated_by),
            promoted_to: opt_view(self.promoted_to),
            obsoleted_by: opt_view(self.obsoleted_by),
            provisional: self.provisional,
            sort_order: opt_view(self.sort_order),
        }
    }
}

pub open spec fn extension_pair_err(p: AttrV) -> Option<ErrV> {
    if p.key == "name"@ {
        None
    } else if p.key == "number"@ {
        None
    } else if p.key == "type"@ {
        if p.value == "instance"@ || p.value == "device"@ {
                None
            } else {
                Some(malformed_err("type"@, p.value))
            }
    } else if p.key == "author"@ {
        None
    } else if p.key == "contact"@ {
        None
    } else if p.key == "supported"@ {
        None
    } else if p.key == "depends"@ {
        None
    } else if p.key == "platform"@ {
        None
    } else if p.key == "comment"@ {
        None
    } else if p.key == "specialuse"@ {
        None
    } else if p.key == "deprecatedby"@ {
        None
    } else if p.key == "promotedto"@ {
        None
    } else if p.key == "obsoletedby"@ {
        None
    } else if p.key == "provisional"@ {
        if p.value == "true"@ {
                None
            } else {
                Some(malformed_err("provisional"@, p.value))
            }
    } else if p.key == "sortorder"@ {
        None
    } else {
        Some(ErrV::UnexpectedAttribute { key: p.key, record_kind: "Extension"@ })
    }
}

pub open spec fn extension_checker() -> spec_fn(AttrV) -> Option<ErrV> {
    |p: AttrV| extension_pair_err(p)
}

/// The attribute keys (and checked attribute values) of this record kind
/// are pairwise distinct text.
proof fn extension_key_facts()
    ensures
        "name"@ != "number"@,
        "name"@ != "type"@,
        "name"@ != "author"@,
        "name"@ != "contact"@,
        "name"@ != "supported"@,
        "name"@ != "depends"@,
        "name"@ != "platform"@,
        "name"@ != "comment"@,
        "name"@ != "specialuse"@,
        "name"@ != "deprecatedby"@,
        "name"@ != "promotedto"@,
        "name"@ != "obsoletedby"@,
        "name"@ != "provisional"@,
        "name"@ != "sortorder"@,
        "number"@ != "type"@,
        "number"@ != "author"@,
        "number"@ != "contact"@,
        "number"@ != "supported"@,
        "number"@ != "depends"@,
        "number"@ != "platform"@,
        "number"@ != "comment"@,
        "number"@ != "specialuse"@,
        "number"@ != "deprecatedby"@,
        "number"@ != "promotedto"@,
        "number"@ != "obsoletedby"@,
        "number"@ != "provisional"@,
        "number"@ != "sortorder"@,
        "type"@ != "author"@,
        "type"@ != "contact"@,
        "type"@ != "supported"@,
        "type"@ != "depends"@,
        "type"@ != "platform"@,
        "type"@ != "comment"@,
        "type"@ != "specialuse"@,
        "type"@ != "deprecatedby"@,
        "type"@ != "promotedto"@,
        "type"@ != "obsoletedby"@,
        "type"@ != "provisional"@,
        "type"@ != "sortorder"@,
        "author"@ != "contact"@,
        "author"@ != "supported"@,
        "author"@ != "depends"@,
        "author"@ != "platform"@,
        "author"@ != "comment"@,
        "author"@ != "specialuse"@,
        "author"@ != "deprecatedby"@,
        "author"@ != "promotedto"@,
        "author"@ != "obsoletedby"@,
        "author"@ != "provisional"@,
        "author"@ != "sortorder"@,
        "contact"@ != "supported"@,
        "contact"@ != "depends"@,
        "contact"@ != "platform"@,
        "contact"@ != "comment"@,
        "contact"@ != "specialuse"@,
        "contact"@ != "deprecatedby"@,
        "contact"@ != "promotedto"@,
        "contact"@ != "obsoletedby"@,
        "contact"@ != "provisional"@,
        "contact"@ != "sortorder"@,
        "supported"@ != "depends"@,
        "supported"@ != "platform"@,
        "supported"@ != "comment"@,
        "supported"@ != "specialuse"@,
        "supported"@ != "deprecatedby"@,
        "supported"@ != "promotedto"@,
        "supported"@ != "obsoletedby"@,
        "supported"@ != "provisional"@,
        "supported"@ != "sortorder"@,
        "depends"@ != "platform"@,
        "depends"@ != "comment"@,
        "depends"@ != "specialuse"@,
        "depends"@ != "deprecatedby"@,
        "depends"@ != "promotedto"@,
        "depends"@ != "obsoletedby"@,
        "depends"@ != "provisional"@,
        "depends"@ != "sortorder"@,
        "platform"@ != "comment"@,
        "platform"@ != "specialuse"@,
        "platform"@ != "deprecatedby"@,
        "platform"@ != "promotedto"@,
        "platform"@ != "obsoletedby"@,
        "platform"@ != "provisional"@,
        "platform"@ != "sortorder"@,
        "comment"@ != "specialuse"@,
        "comment"@ != "deprecatedby"@,
        "comment"@ != "promotedto"@,
        "comment"@ != "obsoletedby"@,
        "comment"@ != "provisional"@,
        "comment"@ != "sortorder"@,
        "specialuse"@ != "deprecatedby"@,
        "specialuse"@ != "promotedto"@,
        "specialuse"@ != "obsoletedby"@,
        "specialuse"@ != "provisional"@,
        "specialuse"@ != "sortorder"@,
        "deprecatedby"@ != "promotedto"@,
        "deprecatedby"@ != "obsoletedby"@,
        "deprecatedby"@ != "provisional"@,
        "deprecatedby"@ != "sortorder"@,
        "promotedto"@ != "obsoletedby"@,
        "promotedto"@ != "provisional"@,
        "promotedto"@ != "sortorder"@,
        "obsoletedby"@ != "provisional"@,
        "obsoletedby"@ != "sortorder"@,
        "provisional"@ != "sortorder"@,
        "instance"@ != "device"@,
{
    reveal_strlit("author");
    reveal_strlit("comment");
    reveal_strlit("contact");
    reveal_strlit("depends");
    reveal_strlit("deprecatedby");
    reveal_strlit("device");
    reveal_strlit("instance");
    reveal_strlit("name");
    reveal_strlit("number");
    reveal_strlit("obsoletedby");
    reveal_strlit("platform");
    reveal_strlit("promotedto");
    reveal_strlit("provisional");
    reveal_strlit("sortorder");
    reveal_strlit("specialuse");
    reveal_strlit("supported");
    reveal_strlit("true");
    reveal_strlit("type");
    assert("author"@.len() == 6);
    assert("author"@[0] == 'a');
    assert("author"@[1] == 'u');
    assert("author"@[2] == 't');
    assert("author"@[3] == 'h');
    assert("author"@[4] == 'o');
    assert("author"@[5] == 'r');
    assert("comment"@.len() == 7);
    assert("comment"@[0] == 'c');
    assert("comment"@[1] == 'o');
    assert("comment"@[2] == 'm');
    assert("comment"@[3] == 'm');
    assert("comment"@[4] == 'e');
    assert("comment"@[5] == 'n');
    assert("comment"@[6] == 't');
    assert("contact"@.len() == 7);
    assert("contact"@[0] == 'c');
    assert("contact"@[1] == 'o');
    assert("contact"@[2] == 'n');
    assert("contact"@[3] == 't');
    assert("contact"@[4] == 'a');
    assert("contact"@[5] == 'c');
    assert("contact"@[6] == 't');
    assert("depends"@.len() == 7);
    assert("depends"@[0] == 'd');
    assert("depends"@[1] == 'e');
    assert("depends"@[2] == 'p');
    assert("depends"@[3] == 'e');
    assert("depends"@[4] == 'n');
    assert("depends"@[5] == 'd');
    assert("depends"@[6] == 's');
    assert("deprecatedby"@.len() == 12);
    assert("deprecatedby"@[0] == 'd');
    assert("deprecatedby"@[1] == 'e');
    assert("deprecatedby"@[2] == 'p');
    assert("deprecatedby"@[3] == 'r');
    assert("deprecatedby"@[4] == 'e');
    assert("deprecatedby"@[5] == 'c');
    assert("deprecatedby"@[6] == 'a');
    assert("deprecatedby"@[7] == 't');
    assert("deprecatedby"@[8] == 'e');
    assert("deprecatedby"@[9] == 'd');
    assert("deprecatedby"@[10] == 'b');
    assert("deprecatedby"@[11] == 'y');
    assert("device"@.len() == 6);
    assert("device"@[0] == 'd');
    assert("device"@[1] == 'e');
    assert("device"@[2] == 'v');
    assert("device"@[3] == 'i');
    assert("device"@[4] == 'c');
    assert("device"@[5] == 'e');
    assert("instance"@.len() == 8);
    assert("instance"@[0] == 'i');
    assert("instance"@[1] == 'n');
    assert("instance"@[2] == 's');
    assert("instance"@[3] == 't');
    assert("instance"@[4] == 'a');
    assert("instance"@[5] == 'n');
    assert("instance"@[6] == 'c');
    assert("instance"@[7] == 'e');
    assert("name"@.len() == 4);
    assert("name"@[0] == 'n');
    assert("name"@[1] == 'a');
    assert("name"@[2] == 'm');
    assert("name"@[3] == 'e');
    assert("number"@.len() == 6);
    assert("number"@[0] == 'n');
    assert("number"@[1] == 'u');
    assert("number"@[2] == 'm');
    assert("number"@[3] == 'b');
    assert("number"@[4] == 'e');
    assert("number"@[5] == 'r');
    assert("obsoletedby"@.len() == 11);
    assert("obsoletedby"@[0] == 'o');
    assert("obsoletedby"@[1] == 'b');
    assert("obsoletedby"@[2] == 's');
    assert("obsoletedby"@[3] == 'o');
    assert("obsoletedby"@[4] == 'l');
    assert("obsoletedby"@[5] == 'e');
    assert("obsoletedby"@[6] == 't');
    assert("obsoletedby"@[7] == 'e');
    assert("obsoletedby"@[8] == 'd');
    assert("obsoletedby"@[9] == 'b');
    assert("obsoletedby"@[10] == 'y');
    assert("platform"@.len() == 8);
    assert("platform"@[0] == 'p');
    assert("platform"@[1] == 'l');
    assert("platform"@[2] == 'a');
    assert("platform"@[3] == 't');
    assert("platform"@[4] == 'f');
    assert("platform"@[5] == 'o');
    assert("platform"@[6] == 'r');
    assert("platform"@[7] == 'm');
    assert("promotedto"@.len() == 10);
    assert("promotedto"@[0] == 'p');
    assert("promotedto"@[1] == 'r');
    assert("promotedto"@[2] == 'o');
    assert("promotedto"@[3] == 'm');
    assert("promotedto"@[4] == 'o');
    assert("promotedto"@[5] == 't');
    assert("promotedto"@[6] == 'e');
    assert("promotedto"@[7] == 'd');
    assert("promotedto"@[8] == 't');
    assert("promotedto"@[9] == 'o');
    assert("provisional"@.len() == 11);
    assert("provisional"@[0] == 'p');
    assert("provisional"@[1] == 'r');
    assert("provisional"@[2] == 'o');
    assert("provisional"@[3] == 'v');
    assert("provisional"@[4] == 'i');
    assert("provisional"@[5] == 's');
    assert("provisional"@[6] == 'i');
    assert("provisional"@[7] == 'o');
    assert("provisional"@[8] == 'n');
    assert("provisional"@[9] == 'a');
    assert("provisional"@[10] == 'l');
    assert("sortorder"@.len() == 9);
    assert("sortorder"@[0] == 's');
    assert("sortorder"@[1] == 'o');
    assert("sortorder"@[2] == 'r');
    assert("sortorder"@[3] == 't');
    assert("sortorder"@[4] == 'o');
    assert("sortorder"@[5] == 'r');
    assert("sortorder"@[6] == 'd');
    assert("sortorder"@[7] == 'e');
    assert("sortorder"@[8] == 'r');
    assert("specialuse"@.len() == 10);
    assert("specialuse"@[0] == 's');
    assert("specialuse"@[1] == 'p');
    assert("specialuse"@[2] == 'e');
    assert("specialuse"@[3] == 'c');
    assert("specialuse"@[4] == 'i');
    assert("specialuse"@[5] == 'a');
    assert("specialuse"@[6] == 'l');
    assert("specialuse"@[7] == 'u');
    assert("specialuse"@[8] == 's');
    assert("specialuse"@[9] == 'e');
    assert("supported"@.len() == 9);
    assert("supported"@[0] == 's');
    assert("supported"@[1] == 'u');
    assert("supported"@[2] == 'p');
    assert("supported"@[3] == 'p');
    assert("supported"@[4] == 'o');
    assert("supported"@[5] == 'r');
    assert("supported"@[6] == 't');
    assert("supported"@[7] == 'e');
    assert("supported"@[8] == 'd');
    assert("true"@.len() == 4);
    assert("true"@[0] == 't');
    assert("true"@[1] == 'r');
    assert("true"@[2] == 'u');
    assert("true"@[3] == 'e');
    assert("type"@.len() == 4);
    assert("type"@[0] == 't');
    assert("type"@[1] == 'y');
    assert("type"@[2] == 'p');
    assert("type"@[3] == 'e');
}

/// The record built from decoded pairs: every key must be mapped, and
/// the mandatory fields must be set.
pub open spec fn extension_from_pairs(ps: Seq<AttrV>) -> Result<ExtensionV, ErrV> {
    match first_err_by(ps, extension_checker()) {
        Some(e) => Err(e),
        None => if or_empty(last_val(ps, "name"@)).len() == 0 {
            Err(missing_err("name"@, "Extension"@))
        } else {
            Ok(
                ExtensionV {
                    name: or_empty(last_val(ps, "name"@)),
                    number: or_empty(last_val(ps, "number"@)),
                    ty: ty_of(last_val(ps, "type"@)),
                    author: or_empty(last_val(ps, "author"@)),
                    contact: or_empty(last_val(ps, "contact"@)),
                    supported: or_empty(last_val(ps, "supported"@)),
                    requirements: Seq::empty(),
                    depends: last_val(ps, "depends"@),
                    platform: last_val(ps, "platform"@),
                    comment: last_val(ps, "comment"@),
                    special_use: last_val(ps, "specialuse"@),
                    deprecated_by: last_val(ps, "deprecatedby"@),
                    promoted_to: last_val(ps, "promotedto"@),
                    obsoleted_by: last_val(ps, "obsoletedby"@),
                    provisional: found(ps, "provisional"@),
                    sort_order: last_val(ps, "sortorder"@),
                },
            )
        },
    }
}

impl Extension {
    /// Builds an `Extension` from decoded attribute pairs.
    #[verifier::loop_isolation(false)]
    pub fn from_pairs(pairs: &Vec<Attr>) -> (r: Result<Extension, ParseError>)
        ensures
            res_view(r) == extension_from_pairs(attrs_view(pairs@)),
    {
        let ghost aps = attrs_view(pairs@);
        let ghost f = extension_checker();
        let mut name: Option<String> = None;
        let mut number: String = String::new();
        let mut ty: ExtensionType = ExtensionType::Instance;
        let mut author: String = String::new();
        let mut contact: String = String::new();
        let mut supported: String = String::new();
        let mut depends: Option<String> = None;
        let mut platform: Option<String> = None;
        let mut comment: Option<String> = None;
        let mut special_use: Option<String> = None;
        let mut deprecated_by: Option<String> = None;
        let mut promoted_to: Option<String> = None;
        let mut obsoleted_by: Option<String> = None;
        let mut provisional: bool = false;
        let mut sort_order: Option<String> = None;
        let mut idx: usize = 0;
        proof {
            assert(aps.skip(0) =~= aps);
            assert(aps.take(0) =~= Seq::<AttrV>::empty());
        }
        while idx < pairs.len()
            invariant
                idx <= pairs@.len(),
                first_err_by(aps, f) == first_err_by(aps.skip(idx as int), f),
                opt_view(name) == last_val(aps.take(idx as int), "name"@),
                number@ == or_empty(last_val(aps.take(idx as int), "number"@)),
                ty == ty_of(last_val(aps.take(idx as int), "type"@)),
                author@ == or_empty(last_val(aps.take(idx as int), "author"@)),
                contact@ == or_empty(last_val(aps.take(idx as int), "contact"@)),
                supported@ == or_empty(last_val(aps.take(idx as int), "supported"@)),
                opt_view(depends) == last_val(aps.take(idx as int), "depends"@),
                opt_view(platform) == last_val(aps.take(idx as int), "platform"@),
                opt_view(comment) == last_val(aps.take(idx as int), "comment"@),
                opt_view(special_use) == last_val(aps.take(idx as int), "specialuse"@),
                opt_view(deprecated_by) == last_val(aps.take(idx as int), "deprecatedby"@),
                opt_view(promoted_to) == last_val(aps.take(idx as int), "promotedto"@),
                opt_view(obsoleted_by) == last_val(aps.take(idx as int), "obsoletedby"@),
                provisional == found(aps.take(idx as int), "provisional"@),
                opt_view(sort_order) == last_val(aps.take(idx as int), "sortorder"@),
            decreases pairs@.len() - idx,
        {
            let ghost p = aps[idx as int];
            proof {
                extension_key_facts();
                assert(p == pairs@[idx as int]@);
                assert(aps.skip(idx as int)[0] == p);
                assert(aps.skip(idx as int).drop_first() =~= aps.skip(idx as int + 1));
                assert(aps.take(idx as int + 1).drop_last() =~= aps.take(idx as int));
                assert(aps.take(idx as int + 1).last() == p);
            }
            let a = &pairs[idx];
            if str_eq(a.key.as_str(), "name") {
                name = Some(a.value.clone());
            } else if str_eq(a.key.as_str(), "number") {
                number = a.value.clone();
            } else if str_eq(a.key.as_str(), "type") {
                if str_eq(a.value.as_str(), "instance") {
                    ty = ExtensionType::Instance;
                } else if str_eq(a.value.as_str(), "device") {
                    ty = ExtensionType::Device;
                } else {
                    return Err(ParseError::MalformedAttributeValue {
                        key: a.key.clone(),
                        raw_value: a.value.clone(),
                    });
                }
            } else if str_eq(a.key.as_str(), "author") {
                author = a.value.clone();
            } else if str_eq(a.key.as_str(), "contact") {
                contact = a.value.clone();
            } else if str_eq(a.key.as_str(), "supported") {
                supported = a.value.clone();
            } else if str_eq(a.key.as_str(), "depends") {
                depends = Some(a.value.clone());
            } else if str_eq(a.key.as_str(), "platform") {
                platform = Some(a.value.clone());
            } else if str_eq(a.key.as_str(), "comment") {
                comment = Some(a.value.clone());
            } else if str_eq(a.key.as_str(), "specialuse") {
                special_use = Some(a.value.clone());
            } else if str_eq(a.key.as_str(), "deprecatedby") {
                deprecated_by = Some(a.value.clone());
            } else if str_eq(a.key.as_str(), "promotedto") {
                promoted_to = Some(a.value.clone());
            } else if str_eq(a.key.as_str(), "obsoletedby") {
                obsoleted_by = Some(a.value.clone());
            } else if str_eq(a.key.as_str(), "provisional") {
                if str_eq(a.value.as_str(), "true") {
                    provisional = true;
                } else {
                    return Err(ParseError::MalformedAttributeValue {
                        key: a.key.clone(),
                        raw_value: a.value.clone(),
                    });
                }
            } else if str_eq(a.key.as_str(), "sortorder") {
                sort_order = Some(a.value.clone());
            } else {
                return Err(ParseError::UnexpectedAttribute {
                    key: a.key.clone(),
                    record_kind: "Extension".to_owned(),
                });
            }
            idx += 1;
        }
        proof {
            assert(aps.skip(pairs@.len() as int) =~= Seq::<AttrV>::empty());
            assert(aps.take(pairs@.len() as int) =~= aps);
        }
        let name = match name {
            Some(v) => v,
            None => {
                return Err(ParseError::MissingRequiredAttribute {
                    name: "name".to_owned(),
                    record_kind: "Extension".to_owned(),
                });
            },
        };
        if name.as_str().is_empty() {
            return Err(ParseError::MissingRequiredAttribute {
                name: "name".to_owned(),
                record_kind: "Extension".to_owned(),
            });
        }
        proof {
            assert(seq_view(Seq::<Requirement>::empty()) =~= Seq::<RequirementV>::empty());
        }
        Ok(Extension {
            name,
            number,
            ty,
            author,
            contact,
            supported,
            requirements: Vec::new(),
            depends,
            platform,
            comment,
            special_use,
            deprecated_by,
            promoted_to,
            obsoleted_by,
            provisional,
            sort_order,
        })
    }

    /// Builds an `Extension` from a tag's raw attribute text.
    pub fn from_attrs(attrs: &str) -> (r: Result<Extension, ParseError>)
        ensures
            res_view(r) == extension_from_pairs(attrs_of(attrs@)),
    {
        let pairs = decode_attrs(attrs);
        Extension::from_pairs(&pairs)
    }
}

/// Permuting the tag's attribute pairs never changes the
/// record built, as long as the pair list is valid: keys all distinct and
/// the record accepted.
pub proof fn lemma_extension_attr_order(ps1: Seq<AttrV>, ps2: Seq<AttrV>)
    requires
        keys_distinct(ps1),
        ps1.to_multiset() == ps2.to_multiset(),
        extension_from_pairs(ps1) is Ok,
    ensures
        extension_from_pairs(ps2) == extension_from_pairs(ps1),
{
    lemma_first_err_by_permutation_none(ps1, ps2, extension_checker());
    lemma_last_val_permutation(ps1, ps2, "name"@);
    lemma_last_val_permutation(ps1, ps2, "number"@);
    lemma_last_val_permutation(ps1, ps2, "type"@);
    lemma_last_val_permutation(ps1, ps2, "author"@);
    lemma_last_val_permutation(ps1, ps2, "contact"@);
    lemma_last_val_permutation(ps1, ps2, "supported"@);
    lemma_last_val_permutation(ps1, ps2, "depends"@);
    lemma_last_val_permutation(ps1, ps2, "platform"@);
    lemma_last_val_permutation(ps1, ps2, "comment"@);
    lemma_last_val_permutation(ps1, ps2, "specialuse"@);
    lemma_last_val_permutation(ps1, ps2, "deprecatedby"@);
    lemma_last_val_permutation(ps1, ps2, "promotedto"@);
    lemma_last_val_permutation(ps1, ps2, "obsoletedby"@);
    lemma_last_val_permutation(ps1, ps2, "provisional"@);
    lemma_last_val_permutation(ps1, ps2, "sortorder"@);
}

/// The body of an `<extension>` element: `<require>` blocks through the
/// closing tag.
pub open spec fn parse_extension_body(ev: Seq<EventV>, i: int, x: ExtensionV) -> Result<
    (ExtensionV, int),
    ErrV,
>
    decreases ev.len() - i,
    via parse_extension_body_dec
{
    if i < 0 || i >= ev.len() {
        Err(end_err("extension"@))
    } else {
        match ev[i] {
            EventV::End { name } => if name == "extension"@ {
                Ok((x, i + 1))
            } else {
                Err(elem_err(name, "extension"@))
            },
            EventV::Start { name, attrs } => if name == "require"@ {
                match requirement_from_pairs(attrs_of(attrs)) {
                    Ok(req) => match parse_require_items(ev, i + 1, req) {
                        Ok((req2, j)) => parse_extension_body(
                            ev,
                            j,
                            ExtensionV { requirements: x.requirements.push(req2), ..x },
                        ),
                        Err(e) => Err(e),
                    },
                    Err(e) => Err(e),
                }
            } else {
                Err(elem_err(name, "extension"@))
            },
            e => Err(elem_err(ev_tag(e), "extension"@)),
        }
    }
}

#[via_fn]
proof fn parse_extension_body_dec(ev: Seq<EventV>, i: int, x: ExtensionV) {
    if 0 <= i < ev.len() {
        match ev[i] {
            EventV::Start { name, attrs } => {
                if name == "require"@ {
                    match requirement_from_pairs(attrs_of(attrs)) {
                        Ok(req) => lemma_parse_require_items_advances(ev, i + 1, req),
                        Err(e) => {},
                    }
                }
            },
            _ => {},
        }
    }
}

/// An extension body only ever moves the cursor forward.
pub proof fn lemma_parse_extension_body_advances(ev: Seq<EventV>, i: int, x: ExtensionV)
    ensures
        parse_extension_body(ev, i, x) matches Ok(p) ==> i < p.1 <= ev.len(),
    decreases ev.len() - i,
{
    if 0 <= i < ev.len() {
        match ev[i] {
            EventV::Start { name, attrs } => {
                if name == "require"@ {
                    match requirement_from_pairs(attrs_of(attrs)) {
                        Ok(req) => {
                            lemma_parse_require_items_advances(ev, i + 1, req);
                            match parse_require_items(ev, i + 1, req) {
                                Ok((req2, j)) => lemma_parse_extension_body_advances(
                                    ev,
                                    j,
                                    ExtensionV { requirements: x.requirements.push(req2), ..x },
                                ),
                                Err(e) => {},
                            }
                        },
                        Err(e) => {},
                    }
                }
            },
            _ => {},
        }
    }
}

/// Consumes the body of one `<extension>` element into `x`.
#[verifier::loop_isolation(false)]
fn do_extension_body(x: &mut Extension, events: &Vec<XmlEvent>, pos: usize) -> (r: Result<
    usize,
    ParseError,
>)
    ensures
        match r {
            Ok(j) => parse_extension_body(events_view(events@), pos as int, old(x)@) == Ok::<
                _,
                ErrV,
            >((final(x)@, j as int)),
            Err(e) => parse_extension_body(events_view(events@), pos as int, old(x)@) == Err::<
                (ExtensionV, int),
                ErrV,
            >(e@),
        },
{
    let ghost ev = events_view(events@);
    let ghost x0 = old(x)@;
    let mut cur = pos;
    loop
        invariant
            pos <= cur,
            parse_extension_body(ev, cur as int, x@) == parse_extension_body(ev, pos as int, x0),
        decreases ev.len() - cur,
    {
        if cur >= events.len() {
            return Err(ParseError::UnexpectedElement {
                tag: String::new(),
                context: "extension".to_owned(),
            });
        }
        proof {
            assert(ev[cur as int] == events@[cur as int]@);
        }
        match &events[cur] {
            XmlEvent::End { name: n } => {
                if str_eq(n.as_str(), "extension") {
                    return Ok(cur + 1);
                } else {
                    return Err(ParseError::UnexpectedElement {
                        tag: n.clone(),
                        context: "extension".to_owned(),
                    });
                }
            },
            XmlEvent::Start { name: n, attrs: a } => {
                if str_eq(n.as_str(), "require") {
                    let mut req = match Requirement::from_attrs(a.as_str()) {
                        Ok(rq) => rq,
                        Err(e) => {
                            return Err(e);
                        },
                    };
                    let ghost rq0 = req@;
                    match do_require_items(&mut req, events, cur + 1) {
                        Ok(j) => {
                            proof {
                                lemma_parse_require_items_advances(ev, cur as int + 1, rq0);
                                assert(seq_view(x.requirements@.push(req)) =~= seq_view(
                                    x.requirements@,
                                ).push(req@));
                            }
                            x.requirements.push(req);
                            cur = j;
                            continue ;
                        },
                        Err(e) => {
                            return Err(e);
                        },
                    }
                } else {
                    return Err(ParseError::UnexpectedElement {
                        tag: n.clone(),
                        context: "extension".to_owned(),
                    });
                }
            },
            e => {
                return Err(ParseError::UnexpectedElement {
                    tag: exec_ev_tag(e),
                    context: "extension".to_owned(),
                });
            },
        }
        cur += 1;
    }
}

/// The body of the `<extensions>` section: `<extension>` elements through
/// the closing tag.
pub open spec fn parse_extensions(ev: Seq<EventV>, i: int, xs: Seq<ExtensionV>) -> Result<
    (Seq<ExtensionV>, int),
    ErrV,
>
    decreases ev.len() - i,
    via parse_extensions_dec
{
    if i < 0 || i >= ev.len() {
        Err(end_err("extensions"@))
    } else {
        match ev[i] {
            EventV::End { name } => if name == "extensions"@ {
                Ok((xs, i + 1))
            } else {
                Err(elem_err(name, "extensions"@))
            },
            EventV::Start { name, attrs } => if name == "extension"@ {
                match extension_from_pairs(attrs_of(attrs)) {
                    Ok(x) => match parse_extension_body(ev, i + 1, x) {
                        Ok((x2, j)) => parse_extensions(ev, j, xs.push(x2)),
                        Err(e) => Err(e),
                    },
                    Err(e) => Err(e),
                }
            } else {
                Err(elem_err(name, "extensions"@))
            },
            e => Err(elem_err(ev_tag(e), "extensions"@)),
        }
    }
}

#[via_fn]
proof fn parse_extensions_dec(ev: Seq<EventV>, i: int, xs: Seq<ExtensionV>) {
    if 0 <= i < ev.len() {
        match ev[i] {
            EventV::Start { name, attrs } => {
                if name == "extension"@ {
                    match extension_from_pairs(attrs_of(attrs)) {
                        Ok(x) => lemma_parse_extension_body_advances(ev, i + 1, x),
                        Err(e) => {},
                    }
                }
            },
            _ => {},
        }
    }
}

/// An `<extensions>` section whose opening tag carries `attrs`: the tag may
/// only hold a `comment` attribute, then the body runs to the closing tag.
pub open spec fn spec_do_extensions(
    ev: Seq<EventV>,
    i: int,
    attrs: Seq<char>,
    xs: Seq<ExtensionV>,
) -> Result<(Seq<ExtensionV>, int), ErrV> {
    match first_err_by(attrs_of(attrs), comment_only_checker("extensions"@)) {
        Some(e) => Err(e),
        None => parse_extensions(ev, i, xs),
    }
}

/// Consumes an `<extensions>` section, appending each extension in document
/// order.
#[verifier::loop_isolation(false)]
pub fn do_extensions(
    extensions: &mut Vec<Extension>,
    attrs: &str,
    events: &Vec<XmlEvent>,
    pos: usize,
) -> (r: Result<usize, ParseError>)
    ensures
        match r {
            Ok(j) => spec_do_extensions(
                events_view(events@),
                pos as int,
                attrs@,
                seq_view(old(extensions)@),
            ) == Ok::<_, ErrV>((seq_view(final(extensions)@), j as int)),
            Err(e) => spec_do_extensions(
                events_view(events@),
                pos as int,
                attrs@,
                seq_view(old(extensions)@),
            ) == Err::<(Seq<ExtensionV>, int), ErrV>(e@),
        },
{
    if let Some(e) = check_comment_only(attrs, "extensions") {
        return Err(e);
    }
    let ghost ev = events_view(events@);
    let ghost xs0 = seq_view(old(extensions)@);
    let mut cur = pos;
    loop
        invariant
            pos <= cur,
            parse_extensions(ev, cur as int, seq_view(extensions@)) == parse_extensions(
                ev,
                pos as int,
                xs0,
            ),
        decreases ev.len() - cur,
    {
        if cur >= events.len() {
            return Err(ParseError::UnexpectedElement {
                tag: String::new(),
                context: "extensions".to_owned(),
            });
        }
        proof {
            assert(ev[cur as int] == events@[cur as int]@);
        }
        match &events[cur] {
            XmlEvent::End { name: n } => {
                if str_eq(n.as_str(), "extensions") {
                    return Ok(cur + 1);
                } else {
                    return Err(ParseError::UnexpectedElement {
                        tag: n.clone(),
                        context: "extensions".to_owned(),
                    });
                }
            },
            XmlEvent::Start { name: n, attrs: a } => {
                if str_eq(n.as_str(), "extension") {
                    let mut x = match Extension::from_attrs(a.as_str()) {
                        Ok(x) => x,
                        Err(e) => {
                            return Err(e);
                        },
                    };
                    let ghost xv0 = x@;
                    match do_extension_body(&mut x, events, cur + 1) {
                        Ok(j) => {
                            proof {
                                lemma_parse_extension_body_advances(ev, cur as int + 1, xv0);
                                assert(seq_view(extensions@.push(x)) =~= seq_view(
                                    extensions@,
                                ).push(x@));
                            }
                            extensions.push(x);
                            cur = j;
                            continue ;
                        },
                        Err(e) => {
                            return Err(e);
                        },
                    }
                } else {
                    return Err(ParseError::UnexpectedElement {
                        tag: n.clone(),
                        context: "extensions".to_owned(),
                    });
                }
            },
            e => {
                return Err(ParseError::UnexpectedElement {
                    tag: exec_ev_tag(e),
                    context: "extensions".to_owned(),
                });
            },
        }
        cur += 1;
    }
}

/// An `<extensions>` body only ever moves the cursor forward.
pub proof fn lemma_parse_extensions_advances(ev: Seq<EventV>, i: int, xs: Seq<ExtensionV>)
    ensures
        parse_extensions(ev, i, xs) matches Ok(p) ==> i < p.1 <= ev.len(),
    decreases ev.len() - i,
{
    if 0 <= i < ev.len() {
        match ev[i] {
            EventV::Start { name, attrs } => {
                if name == "extension"@ {
                    match extension_from_pairs(attrs_of(attrs)) {
                        Ok(x) => {
                            lemma_parse_extension_body_advances(ev, i + 1, x);
                            match parse_extension_body(ev, i + 1, x) {
                                Ok((x2, j)) => lemma_parse_extensions_advances(ev, j, xs.push(x2)),
                                Err(e) => {},
                            }
                        },
                        Err(e) => {},
                    }
                }
            },
            _ => {},
        }
    }
}

/// An `<extensions>` section that closes at once adds nothing.
pub proof fn lemma_extensions_empty_section(ev: Seq<EventV>, i: int, xs: Seq<ExtensionV>)
    requires
        0 <= i < ev.len(),
        ev[i] == (EventV::End { name: "extensions"@ }),
    ensures
        parse_extensions(ev, i, xs) == Ok::<_, ErrV>((xs, i + 1)),
{
}

} // verus!
