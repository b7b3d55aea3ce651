//! The `<platforms>` section: platform metadata namespaces.

use vstd::prelude::*;

use crate::attrs::{
    attrs_of, attrs_view, check_comment_only, comment_only_checker, decode_attrs, first_err_by,
    found, keys_distinct, last_val, lemma_first_err_by_permutation_none,
    lemma_last_val_permutation, or_empty, opt_view, seq_view, Attr, AttrV,
};
use crate::errors::{elem_err, end_err, missing_err, res_view, ErrV, ParseError};
use crate::events::{events_view, ev_tag, exec_ev_tag, EventV, XmlEvent};
use crate::utils::str_eq;

verus! {

/// A `<platform name=".." protect=".." comment=".."/>` record.
#[derive(Debug, Clone, PartialEq, Eq)]
pub struct Platform {
    pub name: String,
    pub protect: String,
    pub comment: String,
}

/// The mathematical value of a [`Platform`].
pub ghost struct PlatformV {
    pub name: Seq<char>,
    pub protect: Seq<char>,
    pub comment: Seq<char>,
}

impl View for Platform {
    type V = PlatformV;

    open spec fn view(&self) -> PlatformV {
        PlatformV { name: self.name@, protect: self.protect@, comment: self.comment@ }
    }
}

/// The per-pair check of a platform tag: the three known keys are accepted,
/// anything else is a schema drift.
pub open spec fn platform_pair_err(p: AttrV) -> Option<ErrV> {
    if p.key == "name"@ || p.key == "protect"@ || p.key == "comment"@ {
        None
    } else {
        Some(ErrV::UnexpectedAttribute { key: p.key, record_kind: "platform"@ })
    }
}

pub open spec fn platform_checker() -> spec_fn(AttrV) -> Option<ErrV> {
    |p: AttrV| platform_pair_err(p)
}

/// The platform built from decoded pairs: every key must be mapped, all
/// three fields are mandatory, and the name may not be empty.
pub open spec fn platform_from_pairs(ps: Seq<AttrV>) -> Result<PlatformV, ErrV> {
    match first_err_by(ps, platform_checker()) {
        Some(e) => Err(e),
        None => if or_empty(last_val(ps, "name"@)).len() == 0 {
            Err(missing_err("name"@, "platform"@))
        } else if !found(ps, "protect"@) {
            Err(missing_err("protect"@, "platform"@))
        } else if !found(ps, "comment"@) {
            Err(missing_err("comment"@, "platform"@))
        } else {
            Ok(
                PlatformV {
                    name: or_empty(last_val(ps, "name"@)),
                    protect: or_empty(last_val(ps, "protect"@)),
                    comment: or_empty(last_val(ps, "comment"@)),
                },
            )
        },
    }
}

/// The attribute keys of a platform tag are pairwise distinct text.
proof fn platform_key_facts()
    ensures
        "name"@ != "protect"@,
        "name"@ != "comment"@,
        "protect"@ != "comment"@,
{
    reveal_strlit("name");
    reveal_strlit("protect");
    reveal_strlit("comment");
    assert("name"@.len() == 4);
    assert("protect"@.len() == 7);
    assert("comment"@.len() == 7);
    assert("protect"@[0] == 'p');
    assert("comment"@[0] == 'c');
}

impl Platform {
    /// Builds a `Platform` from decoded attribute pairs.
    #[verifier::loop_isolation(false)]
    pub fn from_pairs(pairs: &Vec<Attr>) -> (r: Result<Platform, ParseError>)
        ensures
            res_view(r) == platform_from_pairs(attrs_view(pairs@)),
    {
        let ghost aps = attrs_view(pairs@);
        let ghost f = platform_checker();
        let mut name: Option<String> = None;
        let mut protect: Option<String> = None;
        let mut comment: Option<String> = None;
        let mut idx: usize = 0;
        proof {
            assert(aps.skip(0) =~= aps);
            assert(aps.take(0) =~= Seq::<AttrV>::empty());
        }
        while idx < pairs.len()
            invariant
                idx <= pairs@.len(),
                first_err_by(aps, f) == first_err_by(aps.skip(idx as int), f),
                opt_view(name) == last_val(aps.take(idx as int), "name"@),
                opt_view(protect) == last_val(aps.take(idx as int), "protect"@),
                opt_view(comment) == last_val(aps.take(idx as int), "comment"@),
            decreases pairs@.len() - idx,
        {
            let ghost p = aps[idx as int];
            proof {
                platform_key_facts();
                assert(p == pairs@[idx as int]@);
                assert(aps.skip(idx as int)[0] == p);
                assert(aps.skip(idx as int).drop_first() =~= aps.skip(idx as int + 1));
                assert(aps.take(idx as int + 1).drop_last() =~= aps.take(idx as int));
                assert(aps.take(idx as int + 1).last() == p);
            }
            let a = &pairs[idx];
            if str_eq(a.key.as_str(), "name") {
                name = Some(a.value.clone());
            } else if str_eq(a.key.as_str(), "protect") {
                protect = Some(a.value.clone());
            } else if str_eq(a.key.as_str(), "comment") {
                comment = Some(a.value.clone());
            } else {
                return Err(ParseError::UnexpectedAttribute {
                    key: a.key.clone(),
                    record_kind: "platform".to_owned(),
                });
            }
            idx += 1;
        }
        proof {
            assert(aps.skip(pairs@.len() as int) =~= Seq::<AttrV>::empty());
            assert(aps.take(pairs@.len() as int) =~= aps);
        }
        let name = match name {
            Some(n) => n,
            None => {
                return Err(ParseError::MissingRequiredAttribute {
                    name: "name".to_owned(),
                    record_kind: "platform".to_owned(),
                });
            },
        };
        if name.as_str().is_empty() {
            return Err(ParseError::MissingRequiredAttribute {
                name: "name".to_owned(),
                record_kind: "platform".to_owned(),
            });
        }
        let protect = match protect {
            Some(p) => p,
            None => {
                return Err(ParseError::MissingRequiredAttribute {
                    name: "protect".to_owned(),
                    record_kind: "platform".to_owned(),
                });
            },
        };
        let comment = match comment {
            Some(c) => c,
            None => {
                return Err(ParseError::MissingRequiredAttribute {
                    name: "comment".to_owned(),
                    record_kind: "platform".to_owned(),
                });
            },
        };
        Ok(Platform { name, protect, comment })
    }

    /// Builds a `Platform` from a tag's raw attribute text.
    pub fn from_attrs(attrs: &str) -> (r: Result<Platform, ParseError>)
        ensures
            res_view(r) == platform_from_pairs(attrs_of(attrs@)),
    {
        let pairs = decode_attrs(attrs);
        Platform::from_pairs(&pairs)
    }
}

/// The body of a `<platforms>` section from position `i`: `<platform/>`
/// records appended to `acc` until the closing tag, anything else fatal.
pub open spec fn parse_platforms(ev: Seq<EventV>, i: int, acc: Seq<PlatformV>) -> Result<
    (Seq<PlatformV>, int),
    ErrV,
>
    decreases ev.len() - i,
{
    if i < 0 || i >= ev.len() {
        Err(end_err("platforms"@))
    } else {
        match ev[i] {
            EventV::End { name } => if name == "platforms"@ {
                Ok((acc, i + 1))
            } else {
                Err(elem_err(name, "platforms"@))
            },
            EventV::Empty { name, attrs } => if name == "platform"@ {
                match platform_from_pairs(attrs_of(attrs)) {
                    Ok(p) => parse_platforms(ev, i + 1, acc.push(p)),
                    Err(e) => Err(e),
                }
            } else {
                Err(elem_err(name, "platforms"@))
            },
            e => Err(elem_err(ev_tag(e), "platforms"@)),
        }
    }
}

/// A `<platforms>` section whose opening tag carries `attrs`: the tag may
/// only hold a `comment` attribute, then the body runs to the closing tag.
pub open spec fn spec_do_platforms(
    ev: Seq<EventV>,
    i: int,
    attrs: Seq<char>,
    acc: Seq<PlatformV>,
) -> Result<(Seq<PlatformV>, int), ErrV> {
    match first_err_by(attrs_of(attrs), comment_only_checker("platforms"@)) {
        Some(e) => Err(e),
        None => parse_platforms(ev, i, acc),
    }
}

/// Consumes a `<platforms>` section, appending each platform in document
/// order, and returns the position just past the closing tag.
#[verifier::loop_isolation(false)]
pub fn do_platforms(
    platforms: &mut Vec<Platform>,
    attrs: &str,
    events: &Vec<XmlEvent>,
    pos: usize,
) -> (r: Result<usize, ParseError>)
    ensures
        match r {
            Ok(j) => spec_do_platforms(
                events_view(events@),
                pos as int,
                attrs@,
                seq_view(old(platforms)@),
            ) == Ok::<_, ErrV>((seq_view(final(platforms)@), j as int)),
            Err(e) => spec_do_platforms(
                events_view(events@),
                pos as int,
                attrs@,
                seq_view(old(platforms)@),
            ) == Err::<(Seq<PlatformV>, int), ErrV>(e@),
        },
{
    if let Some(e) = check_comment_only(attrs, "platforms") {
        return Err(e);
    }
    let ghost ev = events_view(events@);
    let ghost acc0 = seq_view(old(platforms)@);
    let mut cur = pos;
    loop
        invariant
            pos <= cur,
            parse_platforms(ev, cur as int, seq_view(platforms@)) == parse_platforms(
                ev,
                pos as int,
                acc0,
            ),
        decreases ev.len() - cur,
    {
        if cur >= events.len() {
            return Err(ParseError::UnexpectedElement {
                tag: String::new(),
                context: "platforms".to_owned(),
            });
        }
        proof {
            assert(ev[cur as int] == events@[cur as int]@);
        }
        match &events[cur] {
            XmlEvent::End { name } => {
                if str_eq(name.as_str(), "platforms") {
                    return Ok(cur + 1);
                } else {
                    return Err(ParseError::UnexpectedElement {
                        tag: name.clone(),
                        context: "platforms".to_owned(),
                    });
                }
            },
            XmlEvent::Empty { name, attrs: a } => {
                if str_eq(name.as_str(), "platform") {
                    match Platform::from_attrs(a.as_str()) {
                        Ok(p) => {
                            proof {
                                assert(seq_view(platforms@.push(p)) =~= seq_view(
                                    platforms@,
                                ).push(p@));
                            }
                            platforms.push(p);
                        },
                        Err(e) => {
                            return Err(e);
                        },
                    }
                } else {
                    return Err(ParseError::UnexpectedElement {
                        tag: name.clone(),
                        context: "platforms".to_owned(),
                    });
                }
            },
            e => {
                return Err(ParseError::UnexpectedElement {
                    tag: exec_ev_tag(e),
                    context: "platforms".to_owned(),
                });
            },
        }
        cur += 1;
    }
}

/// Permuting the tag's attribute pairs never changes the record
/// built, as long as the pair list is valid: keys all distinct and the
/// record accepted.
pub proof fn lemma_platform_attr_order(ps1: Seq<AttrV>, ps2: Seq<AttrV>)
    requires
        keys_distinct(ps1),
        ps1.to_multiset() == ps2.to_multiset(),
        platform_from_pairs(ps1) is Ok,
    ensures
        platform_from_pairs(ps2) == platform_from_pairs(ps1),
{
    lemma_first_err_by_permutation_none(ps1, ps2, platform_checker());
    lemma_last_val_permutation(ps1, ps2, "name"@);
    lemma_last_val_permutation(ps1, ps2, "protect"@);
    lemma_last_val_permutation(ps1, ps2, "comment"@);
}

/// A `<platforms>` section that closes at once adds nothing: the platform
/// list comes back exactly as it went in.
pub proof fn lemma_platforms_empty_section(ev: Seq<EventV>, i: int, acc: Seq<PlatformV>)
    requires
        0 <= i < ev.len(),
        ev[i] == (EventV::End { name: "platforms"@ }),
    ensures
        parse_platforms(ev, i, acc) == Ok::<_, ErrV>((acc, i + 1)),
{
}


/// A `<platforms>` body only ever moves the cursor forward.
pub proof fn lemma_parse_platforms_advances(ev: Seq<EventV>, i: int, acc: Seq<PlatformV>)
    ensures
        parse_platforms(ev, i, acc) matches Ok(p) ==> i < p.1 <= ev.len(),
    decreases ev.len() - i,
{
    if 0 <= i < ev.len() {
        match ev[i] {
            EventV::Empty { name, attrs } => {
                if name == "platform"@ {
                    match platform_from_pairs(attrs_of(attrs)) {
                        Ok(p) => lemma_parse_platforms_advances(ev, i + 1, acc.push(p)),
                        Err(e) => {},
                    }
                }
            },
            _ => {},
        }
    }
}

} // verus!
