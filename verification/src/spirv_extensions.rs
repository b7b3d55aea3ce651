//! The `<spirvextensions>` section.

use vstd::prelude::*;

use crate::attrs::{
    attrs_of, attrs_view, decode_attrs, first_err_by, keys_distinct, last_val,
    lemma_first_err_by_permutation_none, lemma_last_val_permutation, or_empty, opt_view,
    seq_view, Attr, AttrV,
};
use crate::attrs::{check_comment_only, comment_only_checker};
use crate::errors::{elem_err, end_err, missing_err, res_view, ErrV, ParseError};
use crate::events::{events_view, ev_tag, exec_ev_tag, EventV, XmlEvent};
use crate::utils::{str_eq};

verus! {

/// A SPIR-V extension and what enables it.
#[derive(Debug, Clone, PartialEq, Eq)]
pub struct SpirvExtension {
    pub name: String,
    pub version: Option<String>,
    pub extension: Option<String>,
}

/// The mathematical value of a [`SpirvExtension`].
pub ghost struct SpirvExtensionV {
    pub name: Seq<char>,
    pub version: Option<Seq<char>>,
    pub extension: Option<Seq<char>>,
}

impl View for SpirvExtension {
    type V = SpirvExtensionV;

    open spec fn view(&self) -> SpirvExtensionV {
        SpirvExtensionV {
            name: self.name@,
            version: opt_view(self.version),
            extension: opt_view(self.extension),
        }
    }
}

pub open spec fn spirv_extension_pair_err(p: AttrV) -> Option<ErrV> {
    if p.key == "name"@ {
        None
    } else {
        Some(ErrV::UnexpectedAttribute { key: p.key, record_kind: "SpirvExtension"@ })
    }
}

pub open spec fn spirv_extension_checker() -> spec_fn(AttrV) -> Option<ErrV> {
    |p: AttrV| spirv_extension_pair_err(p)
}

/// The attribute keys (and checked attribute values) of this record kind
/// are pairwise distinct text.
proof fn spirv_extension_key_facts()
    ensures
{
    reveal_strlit("name");
    assert("name"@.len() == 4);
    assert("name"@[0] == 'n');
    assert("name"@[1] == 'a');
    assert("name"@[2] == 'm');
    assert("name"@[3] == 'e');
}

/// The record built from decoded pairs: every key must be mapped, and
/// the mandatory fields must be set.
pub open spec fn spirv_extension_from_pairs(ps: Seq<AttrV>) -> Result<SpirvExtensionV, ErrV> {
    match first_err_by(ps, spirv_extension_checker()) {
        Some(e) => Err(e),
        None => if or_empty(last_val(ps, "name"@)).len() == 0 {
            Err(missing_err("name"@, "SpirvExtension"@))
        } else {
            Ok(
                SpirvExtensionV {
                    name: or_empty(last_val(ps, "name"@)),
                    version: None,
                    extension: None,
                },
            )
        },
    }
}

impl SpirvExtension {
    /// Builds a `SpirvExtension` from decoded attribute pairs.
    #[verifier::loop_isolation(false)]
    pub fn from_pairs(pairs: &Vec<Attr>) -> (r: Result<SpirvExtension, ParseError>)
        ensures
            res_view(r) == spirv_extension_from_pairs(attrs_view(pairs@)),
    {
        let ghost aps = attrs_view(pairs@);
        let ghost f = spirv_extension_checker();
        let mut name: Option<String> = None;
        let mut idx: usize = 0;
        proof {
            assert(aps.skip(0) =~= aps);
            assert(aps.take(0) =~= Seq::<AttrV>::empty());
        }
        while idx < pairs.len()
            invariant
                idx <= pairs@.len(),
                first_err_by(aps, f) == first_err_by(aps.skip(idx as int), f),
                opt_view(name) == last_val(aps.take(idx as int), "name"@),
            decreases pairs@.len() - idx,
        {
            let ghost p = aps[idx as int];
            proof {
                spirv_extension_key_facts();
                assert(p == pairs@[idx as int]@);
                assert(aps.skip(idx as int)[0] == p);
                assert(aps.skip(idx as int).drop_first() =~= aps.skip(idx as int + 1));
                assert(aps.take(idx as int + 1).drop_last() =~= aps.take(idx as int));
                assert(aps.take(idx as int + 1).last() == p);
            }
            let a = &pairs[idx];
            if str_eq(a.key.as_str(), "name") {
                name = Some(a.value.clone());
            } else {
                return Err(ParseError::UnexpectedAttribute {
                    key: a.key.clone(),
                    record_kind: "SpirvExtension".to_owned(),
                });
            }
            idx += 1;
        }
        proof {
            assert(aps.skip(pairs@.len() as int) =~= Seq::<AttrV>::empty());
            assert(aps.take(pairs@.len() as int) =~= aps);
        }
        let name = match name {
            Some(v) => v,
            None => {
                return Err(ParseError::MissingRequiredAttribute {
                    name: "name".to_owned(),
                    record_kind: "SpirvExtension".to_owned(),
                });
            },
        };
        if name.as_str().is_empty() {
            return Err(ParseError::MissingRequiredAttribute {
                name: "name".to_owned(),
                record_kind: "SpirvExtension".to_owned(),
            });
        }
        Ok(SpirvExtension {
            name,
            version: None,
            extension: None,
        })
    }

    /// Builds a `SpirvExtension` from a tag's raw attribute text.
    pub fn from_attrs(attrs: &str) -> (r: Result<SpirvExtension, ParseError>)
        ensures
            res_view(r) == spirv_extension_from_pairs(attrs_of(attrs@)),
    {
        let pairs = decode_attrs(attrs);
        SpirvExtension::from_pairs(&pairs)
    }
}

/// Permuting the tag's attribute pairs never changes the
/// record built, as long as the pair list is valid: keys all distinct and
/// the record accepted.
pub proof fn lemma_spirv_extension_attr_order(ps1: Seq<AttrV>, ps2: Seq<AttrV>)
    requires
        keys_distinct(ps1),
        ps1.to_multiset() == ps2.to_multiset(),
        spirv_extension_from_pairs(ps1) is Ok,
    ensures
        spirv_extension_from_pairs(ps2) == spirv_extension_from_pairs(ps1),
{
    lemma_first_err_by_permutation_none(ps1, ps2, spirv_extension_checker());
    lemma_last_val_permutation(ps1, ps2, "name"@);
}

/// One `<enable/>` tag inside a SPIR-V extension: exactly one attribute,
/// either `version` or `extension`, setting the matching field.
pub open spec fn spec_spirv_extension_enable(x: SpirvExtensionV, attrs: Seq<char>) -> Result<
    SpirvExtensionV,
    ErrV,
> {
    let aps = attrs_of(attrs);
    if aps.len() == 0 {
        Err(missing_err("version"@, "SpirvExtension"@))
    } else if aps.len() != 1 {
        Err(ErrV::UnexpectedAttribute { key: aps[1].key, record_kind: "SpirvExtension"@ })
    } else if aps[0].key == "version"@ {
        Ok(SpirvExtensionV { version: Some(aps[0].value), ..x })
    } else if aps[0].key == "extension"@ {
        Ok(SpirvExtensionV { extension: Some(aps[0].value), ..x })
    } else {
        Err(ErrV::UnexpectedAttribute { key: aps[0].key, record_kind: "SpirvExtension"@ })
    }
}

/// Applies one `<enable/>` tag to the SPIR-V extension being built.
fn do_spirv_extension_enable(x: &mut SpirvExtension, attrs: &str) -> (r: Result<(), ParseError>)
    ensures
        match r {
            Ok(()) => spec_spirv_extension_enable(old(x)@, attrs@) == Ok::<SpirvExtensionV, ErrV>(
                final(x)@,
            ),
            Err(e) => spec_spirv_extension_enable(old(x)@, attrs@) == Err::<SpirvExtensionV, ErrV>(
                e@,
            ),
        },
{
    let pairs = decode_attrs(attrs);
    proof {
        if pairs@.len() > 0 {
            assert(attrs_view(pairs@)[0] == pairs@[0 as int]@);
        }
        if pairs@.len() > 1 {
            assert(attrs_view(pairs@)[1] == pairs@[1 as int]@);
        }
    }
    if pairs.len() == 0 {
        return Err(ParseError::MissingRequiredAttribute {
            name: "version".to_owned(),
            record_kind: "SpirvExtension".to_owned(),
        });
    }
    if pairs.len() != 1 {
        return Err(ParseError::UnexpectedAttribute {
            key: pairs[1].key.clone(),
            record_kind: "SpirvExtension".to_owned(),
        });
    }
    if str_eq(pairs[0].key.as_str(), "version") {
        x.version = Some(pairs[0].value.clone());
        Ok(())
    } else if str_eq(pairs[0].key.as_str(), "extension") {
        x.extension = Some(pairs[0].value.clone());
        Ok(())
    } else {
        Err(ParseError::UnexpectedAttribute {
            key: pairs[0].key.clone(),
            record_kind: "SpirvExtension".to_owned(),
        })
    }
}

/// The body of one `<spirvextension>` element: `<enable/>` tags through the
/// closing tag.
pub open spec fn parse_spirv_extension_body(ev: Seq<EventV>, i: int, x: SpirvExtensionV) -> Result<
    (SpirvExtensionV, int),
    ErrV,
>
    decreases ev.len() - i,
{
    if i < 0 || i >= ev.len() {
        Err(end_err("spirvextension"@))
    } else {
        match ev[i] {
            EventV::End { name } => if name == "spirvextension"@ {
                Ok((x, i + 1))
            } else {
                Err(elem_err(name, "spirvextension"@))
            },
            EventV::Empty { name, attrs } => if name == "enable"@ {
                match spec_spirv_extension_enable(x, attrs) {
                    Ok(x2) => parse_spirv_extension_body(ev, i + 1, x2),
                    Err(e) => Err(e),
                }
            } else {
                Err(elem_err(name, "spirvextension"@))
            },
            e => Err(elem_err(ev_tag(e), "spirvextension"@)),
        }
    }
}

/// A SPIR-V extension body only ever moves the cursor forward.
pub proof fn lemma_parse_spirv_extension_body_advances(ev: Seq<EventV>, i: int, x: SpirvExtensionV)
    ensures
        parse_spirv_extension_body(ev, i, x) matches Ok(p) ==> i < p.1 <= ev.len(),
    decreases ev.len() - i,
{
    if 0 <= i < ev.len() {
        match ev[i] {
            EventV::Empty { name, attrs } => {
                if name == "enable"@ {
                    match spec_spirv_extension_enable(x, attrs) {
                        Ok(x2) => lemma_parse_spirv_extension_body_advances(ev, i + 1, x2),
                        Err(e) => {},
                    }
                }
            },
            _ => {},
        }
    }
}

/// The body of the `<spirvextensions>` section.
pub open spec fn parse_spirv_extensions(
    ev: Seq<EventV>,
    i: int,
    xs: Seq<SpirvExtensionV>,
) -> Result<(Seq<SpirvExtensionV>, int), ErrV>
    decreases ev.len() - i,
    via parse_spirv_extensions_dec
{
    if i < 0 || i >= ev.len() {
        Err(end_err("spirvextensions"@))
    } else {
        match ev[i] {
            EventV::End { name } => if name == "spirvextensions"@ {
                Ok((xs, i + 1))
            } else {
                Err(elem_err(name, "spirvextensions"@))
            },
            EventV::Start { name, attrs } => if name == "spirvextension"@ {
                match spirv_extension_from_pairs(attrs_of(attrs)) {
                    Ok(x) => match parse_spirv_extension_body(ev, i + 1, x) {
                        Ok((x2, j)) => parse_spirv_extensions(ev, j, xs.push(x2)),
                        Err(e) => Err(e),
                    },
                    Err(e) => Err(e),
                }
            } else {
                Err(elem_err(name, "spirvextensions"@))
            },
            e => Err(elem_err(ev_tag(e), "spirvextensions"@)),
        }
    }
}

#[via_fn]
proof fn parse_spirv_extensions_dec(ev: Seq<EventV>, i: int, xs: Seq<SpirvExtensionV>) {
    if 0 <= i < ev.len() {
        match ev[i] {
            EventV::Start { name, attrs } => {
                if name == "spirvextension"@ {
                    match spirv_extension_from_pairs(attrs_of(attrs)) {
                        Ok(x) => lemma_parse_spirv_extension_body_advances(ev, i + 1, x),
                        Err(e) => {},
                    }
                }
            },
            _ => {},
        }
    }
}

/// A `<spirvextensions>` section whose opening tag carries `attrs`.
pub open spec fn spec_do_spirvextensions(
    ev: Seq<EventV>,
    i: int,
    attrs: Seq<char>,
    xs: Seq<SpirvExtensionV>,
) -> Result<(Seq<SpirvExtensionV>, int), ErrV> {
    match first_err_by(attrs_of(attrs), comment_only_checker("spirvextensions"@)) {
        Some(e) => Err(e),
        None => parse_spirv_extensions(ev, i, xs),
    }
}

/// Consumes the body of one `<spirvextension>` element into `x`.
#[verifier::loop_isolation(false)]
fn do_spirv_extension_body(x: &mut SpirvExtension, events: &Vec<XmlEvent>, pos: usize) -> (r:
    Result<usize, ParseError>)
    ensures
        match r {
            Ok(j) => parse_spirv_extension_body(events_view(events@), pos as int, old(x)@) == Ok::<
                _,
                ErrV,
            >((final(x)@, j as int)),
            Err(e) => parse_spirv_extension_body(events_view(events@), pos as int, old(x)@)
                == Err::<(SpirvExtensionV, int), ErrV>(e@),
        },
{
    let ghost ev = events_view(events@);
    let ghost x0 = old(x)@;
    let mut cur = pos;
    loop
        invariant
            pos <= cur,
            parse_spirv_extension_body(ev, cur as int, x@) == parse_spirv_extension_body(
                ev,
                pos as int,
                x0,
            ),
        decreases ev.len() - cur,
    {
        if cur >= events.len() {
            return Err(ParseError::UnexpectedElement {
                tag: String::new(),
                context: "spirvextension".to_owned(),
            });
        }
        proof {
            assert(ev[cur as int] == events@[cur as int]@);
        }
        match &events[cur] {
            XmlEvent::End { name: n } => {
                if str_eq(n.as_str(), "spirvextension") {
                    return Ok(cur + 1);
                } else {
                    return Err(ParseError::UnexpectedElement {
                        tag: n.clone(),
                        context: "spirvextension".to_owned(),
                    });
                }
            },
            XmlEvent::Empty { name: n, attrs: a } => {
                if str_eq(n.as_str(), "enable") {
                    match do_spirv_extension_enable(x, a.as_str()) {
                        Ok(()) => {},
                        Err(e) => {
                            return Err(e);
                        },
                    }
                } else {
                    return Err(ParseError::UnexpectedElement {
                        tag: n.clone(),
                        context: "spirvextension".to_owned(),
                    });
                }
            },
            e => {
                return Err(ParseError::UnexpectedElement {
                    tag: exec_ev_tag(e),
                    context: "spirvextension".to_owned(),
                });
            },
        }
        cur += 1;
    }
}

/// Consumes a `<spirvextensions>` section, appending each entry in document
/// order.
#[verifier::loop_isolation(false)]
pub fn do_spirvextensions(
    spirv_extensions: &mut Vec<SpirvExtension>,
    attrs: &str,
    events: &Vec<XmlEvent>,
    pos: usize,
) -> (r: Result<usize, ParseError>)
    ensures
        match r {
            Ok(j) => spec_do_spirvextensions(
                events_view(events@),
                pos as int,
                attrs@,
                seq_view(old(spirv_extensions)@),
            ) == Ok::<_, ErrV>((seq_view(final(spirv_extensions)@), j as int)),
            Err(e) => spec_do_spirvextensions(
                events_view(events@),
                pos as int,
                attrs@,
                seq_view(old(spirv_extensions)@),
            ) == Err::<(Seq<SpirvExtensionV>, int), ErrV>(e@),
        },
{
    if let Some(e) = check_comment_only(attrs, "spirvextensions") {
        return Err(e);
    }
    let ghost ev = events_view(events@);
    let ghost xs0 = seq_view(old(spirv_extensions)@);
    let mut cur = pos;
    loop
        invariant
            pos <= cur,
            parse_spirv_extensions(ev, cur as int, seq_view(spirv_extensions@))
                == parse_spirv_extensions(ev, pos as int, xs0),
        decreases ev.len() - cur,
    {
        if cur >= events.len() {
            return Err(ParseError::UnexpectedElement {
                tag: String::new(),
                context: "spirvextensions".to_owned(),
            });
        }
        proof {
            assert(ev[cur as int] == events@[cur as int]@);
        }
        match &events[cur] {
            XmlEvent::End { name: n } => {
                if str_eq(n.as_str(), "spirvextensions") {
                    return Ok(cur + 1);
                } else {
                    return Err(ParseError::UnexpectedElement {
                        tag: n.clone(),
                        context: "spirvextensions".to_owned(),
                    });
                }
            },
            XmlEvent::Start { name: n, attrs: a } => {
                if str_eq(n.as_str(), "spirvextension") {
                    let mut x = match SpirvExtension::from_attrs(a.as_str()) {
                        Ok(x) => x,
                        Err(e) => {
                            return Err(e);
                        },
                    };
                    let ghost xv0 = x@;
                    match do_spirv_extension_body(&mut x, events, cur + 1) {
                        Ok(j) => {
                            proof {
                                lemma_parse_spirv_extension_body_advances(ev, cur as int + 1, xv0);
                                assert(seq_view(spirv_extensions@.push(x)) =~= seq_view(
                                    spirv_extensions@,
                                ).push(x@));
                            }
                            spirv_extensions.push(x);
                            cur = j;
                            continue ;
                        },
                        Err(e) => {
                            return Err(e);
                        },
                    }
                } else {
                    return Err(ParseError::UnexpectedElement {
                        tag: n.clone(),
                        context: "spirvextensions".to_owned(),
                    });
                }
            },
            e => {
                return Err(ParseError::UnexpectedElement {
                    tag: exec_ev_tag(e),
                    context: "spirvextensions".to_owned(),
                });
            },
        }
        cur += 1;
    }
}

/// A `<spirvextensions>` body only ever moves the cursor forward.
pub proof fn lemma_parse_spirv_extensions_advances(
    ev: Seq<EventV>,
    i: int,
    xs: Seq<SpirvExtensionV>,
)
    ensures
        parse_spirv_extensions(ev, i, xs) matches Ok(p) ==> i < p.1 <= ev.len(),
    decreases ev.len() - i,
{
    if 0 <= i < ev.len() {
        match ev[i] {
            EventV::Start { name, attrs } => {
                if name == "spirvextension"@ {
                    match spirv_extension_from_pairs(attrs_of(attrs)) {
                        Ok(x) => {
                            lemma_parse_spirv_extension_body_advances(ev, i + 1, x);
                            match parse_spirv_extension_body(ev, i + 1, x) {
                                Ok((x2, j)) => lemma_parse_spirv_extensions_advances(
                                    ev,
                                    j,
                                    xs.push(x2),
                                ),
                                Err(e) => {},
                            }
                        },
                        Err(e) => {},
                    }
                }
            },
            _ => {},
        }
    }
}

/// A `<spirvextensions>` section that closes at once adds nothing.
pub proof fn lemma_spirv_extensions_empty_section(
    ev: Seq<EventV>,
    i: int,
    xs: Seq<SpirvExtensionV>,
)
    requires
        0 <= i < ev.len(),
        ev[i] == (EventV::End { name: "spirvextensions"@ }),
    ensures
        parse_spirv_extensions(ev, i, xs) == Ok::<_, ErrV>((xs, i + 1)),
{
}

} // verus!
