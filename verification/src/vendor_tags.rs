//! The `<tags>` section: vendor tags (named so to avoid confusion with XML tags).

use vstd::prelude::*;

use crate::attrs::{
    attrs_of, attrs_view, decode_attrs, first_err_by, found, keys_distinct, last_val,
    lemma_first_err_by_permutation_none, lemma_last_val_permutation, or_empty, opt_view,
    seq_view, Attr, AttrV,
};
use crate::attrs::{check_comment_only, comment_only_checker};
use crate::errors::{elem_err, end_err, missing_err, res_view, ErrV, ParseError};
use crate::events::{events_view, ev_tag, exec_ev_tag, EventV, XmlEvent};
use crate::utils::{str_eq};

verus! {

/// A `<tag name=".." author=".." contact=".."/>` record.
#[derive(Debug, Clone, PartialEq, Eq)]
pub struct VendorTag {
    pub name: String,
    pub author: String,
    pub contact: String,
}

/// The mathematical value of a [`VendorTag`].
pub ghost struct VendorTagV {
    pub name: Seq<char>,
    pub author: Seq<char>,
    pub contact: Seq<char>,
}

impl View for VendorTag {
    type V = VendorTagV;

    open spec fn view(&self) -> VendorTagV {
        VendorTagV {
            name: self.name@,
            author: self.author@,
            contact: self.contact@,
        }
    }
}

pub open spec fn vendor_tag_pair_err(p: AttrV) -> Option<ErrV> {
    if p.key == "name"@ {
        None
    } else if p.key == "author"@ {
        None
    } else if p.key == "contact"@ {
        None
    } else {
        Some(ErrV::UnexpectedAttribute { key: p.key, record_kind: "VendorTag"@ })
    }
}

pub open spec fn vendor_tag_checker() -> spec_fn(AttrV) -> Option<ErrV> {
    |p: AttrV| vendor_tag_pair_err(p)
}

/// The attribute keys (and checked attribute values) of this record kind
/// are pairwise distinct text.
proof fn vendor_tag_key_facts()
    ensures
        "name"@ != "author"@,
        "name"@ != "contact"@,
        "author"@ != "contact"@,
{
    reveal_strlit("author");
    reveal_strlit("contact");
    reveal_strlit("name");
    assert("author"@.len() == 6);
    assert("author"@[0] == 'a');
    assert("author"@[1] == 'u');
    assert("author"@[2] == 't');
    assert("author"@[3] == 'h');
    assert("author"@[4] == 'o');
    assert("author"@[5] == 'r');
    assert("contact"@.len() == 7);
    assert("contact"@[0] == 'c');
    assert("contact"@[1] == 'o');
    assert("contact"@[2] == 'n');
    assert("contact"@[3] == 't');
    assert("contact"@[4] == 'a');
    assert("contact"@[5] == 'c');
    assert("contact"@[6] == 't');
    assert("name"@.len() == 4);
    assert("name"@[0] == 'n');
    assert("name"@[1] == 'a');
    assert("name"@[2] == 'm');
    assert("name"@[3] == 'e');
}

/// The record built from decoded pairs: every key must be mapped, and
/// the mandatory fields must be set.
pub open spec fn vendor_tag_from_pairs(ps: Seq<AttrV>) -> Result<VendorTagV, ErrV> {
    match first_err_by(ps, vendor_tag_checker()) {
        Some(e) => Err(e),
        None => if or_empty(last_val(ps, "name"@)).len() == 0 {
            Err(missing_err("name"@, "VendorTag"@))
        } else if !found(ps, "author"@) {
            Err(missing_err("author"@, "VendorTag"@))
        } else if !found(ps, "contact"@) {
            Err(missing_err("contact"@, "VendorTag"@))
        } else {
            Ok(
                VendorTagV {
                    name: or_empty(last_val(ps, "name"@)),
                    author: or_empty(last_val(ps, "author"@)),
                    contact: or_empty(last_val(ps, "contact"@)),
                },
            )
        },
    }
}

impl VendorTag {
    /// Builds a `VendorTag` from decoded attribute pairs.
    #[verifier::loop_isolation(false)]
    pub fn from_pairs(pairs: &Vec<Attr>) -> (r: Result<VendorTag, ParseError>)
        ensures
            res_view(r) == vendor_tag_from_pairs(attrs_view(pairs@)),
    {
        let ghost aps = attrs_view(pairs@);
        let ghost f = vendor_tag_checker();
        let mut name: Option<String> = None;
        let mut author: Option<String> = None;
        let mut contact: Option<String> = None;
        let mut idx: usize = 0;
        proof {
            assert(aps.skip(0) =~= aps);
            assert(aps.take(0) =~= Seq::<AttrV>::empty());
        }
        while idx < pairs.len()
            invariant
                idx <= pairs@.len(),
                first_err_by(aps, f) == first_err_by(aps.skip(idx as int), f),
                opt_view(name) == last_val(aps.take(idx as int), "name"@),
                opt_view(author) == last_val(aps.take(idx as int), "author"@),
                opt_view(contact) == last_val(aps.take(idx as int), "contact"@),
            decreases pairs@.len() - idx,
        {
            let ghost p = aps[idx as int];
            proof {
                vendor_tag_key_facts();
                assert(p == pairs@[idx as int]@);
                assert(aps.skip(idx as int)[0] == p);
                assert(aps.skip(idx as int).drop_first() =~= aps.skip(idx as int + 1));
                assert(aps.take(idx as int + 1).drop_last() =~= aps.take(idx as int));
                assert(aps.take(idx as int + 1).last() == p);
            }
            let a = &pairs[idx];
            if str_eq(a.key.as_str(), "name") {
                name = Some(a.value.clone());
            } else if str_eq(a.key.as_str(), "author") {
                author = Some(a.value.clone());
            } else if str_eq(a.key.as_str(), "contact") {
                contact = Some(a.value.clone());
            } else {
                return Err(ParseError::UnexpectedAttribute {
                    key: a.key.clone(),
                    record_kind: "VendorTag".to_owned(),
                });
            }
            idx += 1;
        }
        proof {
            assert(aps.skip(pairs@.len() as int) =~= Seq::<AttrV>::empty());
            assert(aps.take(pairs@.len() as int) =~= aps);
        }
        let name = match name {
            Some(v) => v,
            None => {
                return Err(ParseError::MissingRequiredAttribute {
                    name: "name".to_owned(),
                    record_kind: "VendorTag".to_owned(),
                });
            },
        };
        if name.as_str().is_empty() {
            return Err(ParseError::MissingRequiredAttribute {
                name: "name".to_owned(),
                record_kind: "VendorTag".to_owned(),
            });
        }
        let author = match author {
            Some(v) => v,
            None => {
                return Err(ParseError::MissingRequiredAttribute {
                    name: "author".to_owned(),
                    record_kind: "VendorTag".to_owned(),
                });
            },
        };
        let contact = match contact {
            Some(v) => v,
            None => {
                return Err(ParseError::MissingRequiredAttribute {
                    name: "contact".to_owned(),
                    record_kind: "VendorTag".to_owned(),
                });
            },
        };
        Ok(VendorTag {
            name,
            author,
            contact,
        })
    }

    /// Builds a `VendorTag` from a tag's raw attribute text.
    pub fn from_attrs(attrs: &str) -> (r: Result<VendorTag, ParseError>)
        ensures
            res_view(r) == vendor_tag_from_pairs(attrs_of(attrs@)),
    {
        let pairs = decode_attrs(attrs);
        VendorTag::from_pairs(&pairs)
    }
}

/// Permuting the tag's attribute pairs never changes the
/// record built, as long as the pair list is valid: keys all distinct and
/// the record accepted.
pub proof fn lemma_vendor_tag_attr_order(ps1: Seq<AttrV>, ps2: Seq<AttrV>)
    requires
        keys_distinct(ps1),
        ps1.to_multiset() == ps2.to_multiset(),
        vendor_tag_from_pairs(ps1) is Ok,
    ensures
        vendor_tag_from_pairs(ps2) == vendor_tag_from_pairs(ps1),
{
    lemma_first_err_by_permutation_none(ps1, ps2, vendor_tag_checker());
    lemma_last_val_permutation(ps1, ps2, "name"@);
    lemma_last_val_permutation(ps1, ps2, "author"@);
    lemma_last_val_permutation(ps1, ps2, "contact"@);
}

/// The body of a `<tags>` section from position `i`: `<tag/>`
/// records appended to `acc` until the closing tag, anything else fatal.
pub open spec fn parse_tags(ev: Seq<EventV>, i: int, acc: Seq<VendorTagV>) -> Result<
    (Seq<VendorTagV>, int),
    ErrV,
>
    decreases ev.len() - i,
{
    if i < 0 || i >= ev.len() {
        Err(end_err("tags"@))
    } else {
        match ev[i] {
            EventV::End { name } => if name == "tags"@ {
                Ok((acc, i + 1))
            } else {
                Err(elem_err(name, "tags"@))
            },
            EventV::Empty { name, attrs } => if name == "tag"@ {
                match vendor_tag_from_pairs(attrs_of(attrs)) {
                    Ok(p) => parse_tags(ev, i + 1, acc.push(p)),
                    Err(e) => Err(e),
                }
            } else {
                Err(elem_err(name, "tags"@))
            },
            e => Err(elem_err(ev_tag(e), "tags"@)),
        }
    }
}

/// A `<tags>` section whose opening tag carries `attrs`: the tag may
/// only hold a `comment` attribute, then the body runs to the closing tag.
pub open spec fn spec_do_tags(
    ev: Seq<EventV>,
    i: int,
    attrs: Seq<char>,
    acc: Seq<VendorTagV>,
) -> Result<(Seq<VendorTagV>, int), ErrV> {
    match first_err_by(attrs_of(attrs), comment_only_checker("tags"@)) {
        Some(e) => Err(e),
        None => parse_tags(ev, i, acc),
    }
}

/// Consumes a `<tags>` section, appending each tag in document
/// order, and returns the position just past the closing tag.
#[verifier::loop_isolation(false)]
pub fn do_tags(
    tags: &mut Vec<VendorTag>,
    attrs: &str,
    events: &Vec<XmlEvent>,
    pos: usize,
) -> (r: Result<usize, ParseError>)
    ensures
        match r {
            Ok(j) => spec_do_tags(
                events_view(events@),
                pos as int,
                attrs@,
                seq_view(old(tags)@),
            ) == Ok::<_, ErrV>((seq_view(final(tags)@), j as int)),
            Err(e) => spec_do_tags(
                events_view(events@),
                pos as int,
                attrs@,
                seq_view(old(tags)@),
            ) == Err::<(Seq<VendorTagV>, int), ErrV>(e@),
        },
{
    if let Some(e) = check_comment_only(attrs, "tags") {
        return Err(e);
    }
    let ghost ev = events_view(events@);
    let ghost acc0 = seq_view(old(tags)@);
    let mut cur = pos;
    loop
        invariant
            pos <= cur,
            parse_tags(ev, cur as int, seq_view(tags@)) == parse_tags(
                ev,
                pos as int,
                acc0,
            ),
        decreases ev.len() - cur,
    {
        if cur >= events.len() {
            return Err(ParseError::UnexpectedElement {
                tag: String::new(),
                context: "tags".to_owned(),
            });
        }
        proof {
            assert(ev[cur as int] == events@[cur as int]@);
        }
        match &events[cur] {
            XmlEvent::End { name } => {
                if str_eq(name.as_str(), "tags") {
                    return Ok(cur + 1);
                } else {
                    return Err(ParseError::UnexpectedElement {
                        tag: name.clone(),
                        context: "tags".to_owned(),
                    });
                }
            },
            XmlEvent::Empty { name, attrs: a } => {
                if str_eq(name.as_str(), "tag") {
                    match VendorTag::from_attrs(a.as_str()) {
                        Ok(p) => {
                            proof {
                                assert(seq_view(tags@.push(p)) =~= seq_view(
                                    tags@,
                                ).push(p@));
                            }
                            tags.push(p);
                        },
                        Err(e) => {
                            return Err(e);
                        },
                    }
                } else {
                    return Err(ParseError::UnexpectedElement {
                        tag: name.clone(),
                        context: "tags".to_owned(),
                    });
                }
            },
            e => {
                return Err(ParseError::UnexpectedElement {
                    tag: exec_ev_tag(e),
                    context: "tags".to_owned(),
                });
            },
        }
        cur += 1;
    }
}

/// A `<tags>` section that closes at once adds nothing: the vendor-tag
/// list comes back exactly as it went in.
pub proof fn lemma_tags_empty_section(ev: Seq<EventV>, i: int, acc: Seq<VendorTagV>)
    requires
        0 <= i < ev.len(),
        ev[i] == (EventV::End { name: "tags"@ }),
    ensures
        parse_tags(ev, i, acc) == Ok::<_, ErrV>((acc, i + 1)),
{
}

/// A `<tags>` body only ever moves the cursor forward.
pub proof fn lemma_parse_tags_advances(ev: Seq<EventV>, i: int, acc: Seq<VendorTagV>)
    ensures
        parse_tags(ev, i, acc) matches Ok(p) ==> i < p.1 <= ev.len(),
    decreases ev.len() - i,
{
    if 0 <= i < ev.len() {
        match ev[i] {
            EventV::Empty { name, attrs } => {
                if name == "tag"@ {
                    match vendor_tag_from_pairs(attrs_of(attrs)) {
                        Ok(p) => lemma_parse_tags_advances(ev, i + 1, acc.push(p)),
                        Err(e) => {},
                    }
                }
            },
            _ => {},
        }
    }
}

} // verus!
