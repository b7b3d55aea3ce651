//! A schema-aware parser for the Vulkan API registry document (`vk.xml`).
//!
//! The document is a flat stream of start-tag, end-tag, empty-tag and text
//! events.  A cascade of per-section state machines consumes that stream and
//! appends typed records to a [`VulkanRegistry`]; the grammar is closed, and
//! the first unrecognized tag, attribute or type-shape token aborts the whole
//! parse with a typed error.  The lexer that turns markup text into events is
//! an external collaborator; everything after it is specified exactly.

use vstd::prelude::*;

pub mod attrs;
pub mod commands;
pub mod enums;
pub mod errors;
pub mod events;
pub mod extensions;
pub mod feature;
pub mod formats;
pub mod platforms;
pub mod spirv_capabilities;
pub mod spirv_extensions;
pub mod type_entry;
pub mod utils;
pub mod vendor_tags;

use crate::attrs::seq_view;
use crate::commands::{
    do_commands, lemma_parse_commands_advances, spec_do_commands, Command, CommandAlias,
    CommandAliasV, CommandV,
};
use crate::enums::{
    do_enums, lemma_do_enums_advances, spec_do_enums, ApiConstant, ApiConstantAlias,
    ApiConstantAliasV, ApiConstantV, EnumsGroup, EnumsGroupV,
};
use crate::errors::{elem_err, end_err, res_view, ErrV, ParseError};
use crate::events::{
    eat_to_end_of_comment, events_of, events_view, ev_tag, exec_ev_tag, expect_bare_start,
    lex_document, lemma_skip_comment_advances, skip_comment, spec_expect_bare_start, EventV,
    XmlEvent,
};
use crate::extensions::{
    do_extensions, lemma_parse_extensions_advances, spec_do_extensions, Extension, ExtensionV,
};
use crate::feature::{
    do_feature, feature_from_pairs, lemma_parse_feature_body_advances, spec_do_feature, Feature,
    FeatureV,
};
use crate::formats::{do_formats, lemma_parse_formats_advances, spec_do_formats, Format, FormatV};
use crate::platforms::{
    do_platforms, lemma_parse_platforms_advances, spec_do_platforms, Platform, PlatformV,
};
use crate::spirv_capabilities::{
    do_spirvcapabilities, lemma_parse_spirv_capabilities_advances, spec_do_spirvcapabilities,
    SpirvCapability, SpirvCapabilityV,
};
use crate::spirv_extensions::{
    do_spirvextensions, lemma_parse_spirv_extensions_advances, spec_do_spirvextensions,
    SpirvExtension, SpirvExtensionV,
};
use crate::type_entry::{
    do_types, lemma_parse_types_advances, spec_do_types, TypeEntry, TypeEntryV,
};
use crate::utils::str_eq;
use crate::vendor_tags::{
    do_tags, lemma_parse_tags_advances, spec_do_tags, VendorTag, VendorTagV,
};

verus! {

/// The complete parsed registry: every section's records, in document order,
/// duplicates kept, built exactly once per parse call.
#[derive(Debug, Clone, PartialEq, Eq)]
pub struct VulkanRegistry {
    pub platforms: Vec<Platform>,
    pub vendors: Vec<VendorTag>,
    pub types: Vec<TypeEntry>,
    pub api_constants: Vec<ApiConstant>,
    pub api_constant_aliases: Vec<ApiConstantAlias>,
    pub enums_groups: Vec<EnumsGroup>,
    pub commands: Vec<Command>,
    pub command_aliases: Vec<CommandAlias>,
    pub features: Vec<Feature>,
    pub extensions: Vec<Extension>,
    pub formats: Vec<Format>,
    pub spirv_extensions: Vec<SpirvExtension>,
    pub spirv_capabilities: Vec<SpirvCapability>,
}

/// The mathematical value of a [`VulkanRegistry`].
#[verifier::ext_equal]
pub ghost struct RegistryV {
    pub platforms: Seq<PlatformV>,
    pub vendors: Seq<VendorTagV>,
    pub types: Seq<TypeEntryV>,
    pub api_constants: Seq<ApiConstantV>,
    pub api_constant_aliases: Seq<ApiConstantAliasV>,
    pub enums_groups: Seq<EnumsGroupV>,
    pub commands: Seq<CommandV>,
    pub command_aliases: Seq<CommandAliasV>,
    pub features: Seq<FeatureV>,
    pub extensions: Seq<ExtensionV>,
    pub formats: Seq<FormatV>,
    pub spirv_extensions: Seq<SpirvExtensionV>,
    pub spirv_capabilities: Seq<SpirvCapabilityV>,
}

impl View for VulkanRegistry {
    type V = RegistryV;

    open spec fn view(&self) -> RegistryV {
        RegistryV {
            platforms: seq_view(self.platforms@),
            vendors: seq_view(self.vendors@),
            types: seq_view(self.types@),
            api_constants: seq_view(self.api_constants@),
            api_constant_aliases: seq_view(self.api_constant_aliases@),
            enums_groups: seq_view(self.enums_groups@),
            commands: seq_view(self.commands@),
            command_aliases: seq_view(self.command_aliases@),
            features: seq_view(self.features@),
            extensions: seq_view(self.extensions@),
            formats: seq_view(self.formats@),
            spirv_extensions: seq_view(self.spirv_extensions@),
            spirv_capabilities: seq_view(self.spirv_capabilities@),
        }
    }
}

/// The registry before any section has been read: every list present and
/// empty, never missing.
pub open spec fn empty_registry() -> RegistryV {
    RegistryV {
        platforms: Seq::empty(),
        vendors: Seq::empty(),
        types: Seq::empty(),
        api_constants: Seq::empty(),
        api_constant_aliases: Seq::empty(),
        enums_groups: Seq::empty(),
        commands: Seq::empty(),
        command_aliases: Seq::empty(),
        features: Seq::empty(),
        extensions: Seq::empty(),
        formats: Seq::empty(),
        spirv_extensions: Seq::empty(),
        spirv_capabilities: Seq::empty(),
    }
}

/// The top-level dispatcher from position `i`: recognized section start
/// tags are handed to their section parsers, comments are skipped, and the
/// registry end tag completes the registry; anything else is fatal.
pub open spec fn parse_sections(ev: Seq<EventV>, i: int, reg: RegistryV) -> Result<RegistryV, ErrV>
    decreases ev.len() - i,
    via parse_sections_dec
{
    if i < 0 || i >= ev.len() {
        Err(end_err("registry"@))
    } else {
        match ev[i] {
            EventV::End { name } => if name == "registry"@ {
                Ok(reg)
            } else {
                Err(elem_err(name, "registry"@))
            },
            EventV::Start { name, attrs } => if name == "comment"@ && attrs.len() == 0 {
                match skip_comment(ev, i + 1) {
                    Ok(j) => parse_sections(ev, j, reg),
                    Err(e) => Err(e),
                }
            } else if name == "platforms"@ {
                match spec_do_platforms(ev, i + 1, attrs, reg.platforms) {
                    Ok((ps, j)) => parse_sections(ev, j, RegistryV { platforms: ps, ..reg }),
                    Err(e) => Err(e),
                }
            } else if name == "tags"@ {
                match spec_do_tags(ev, i + 1, attrs, reg.vendors) {
                    Ok((vs, j)) => parse_sections(ev, j, RegistryV { vendors: vs, ..reg }),
                    Err(e) => Err(e),
                }
            } else if name == "types"@ {
                match spec_do_types(ev, i + 1, attrs, reg.types) {
                    Ok((ts, j)) => parse_sections(ev, j, RegistryV { types: ts, ..reg }),
                    Err(e) => Err(e),
                }
            } else if name == "enums"@ {
                match spec_do_enums(
                    ev,
                    i + 1,
                    attrs,
                    reg.api_constants,
                    reg.api_constant_aliases,
                    reg.enums_groups,
                ) {
                    Ok((cs, als, gs, j)) => parse_sections(
                        ev,
                        j,
                        RegistryV {
                            api_constants: cs,
                            api_constant_aliases: als,
                            enums_groups: gs,
                            ..reg
                        },
                    ),
                    Err(e) => Err(e),
                }
            } else if name == "commands"@ {
                match spec_do_commands(ev, i + 1, attrs, reg.commands, reg.command_aliases) {
                    Ok((cs, als, j)) => parse_sections(
                        ev,
                        j,
                        RegistryV { commands: cs, command_aliases: als, ..reg },
                    ),
                    Err(e) => Err(e),
                }
            } else if name == "feature"@ {
                match spec_do_feature(ev, i + 1, attrs, reg.features) {
                    Ok((fs, j)) => parse_sections(ev, j, RegistryV { features: fs, ..reg }),
                    Err(e) => Err(e),
                }
            } else if name == "extensions"@ {
                match spec_do_extensions(ev, i + 1, attrs, reg.extensions) {
                    Ok((xs, j)) => parse_sections(ev, j, RegistryV { extensions: xs, ..reg }),
                    Err(e) => Err(e),
                }
            } else if name == "formats"@ {
                match spec_do_formats(ev, i + 1, attrs, reg.formats) {
                    Ok((fs, j)) => parse_sections(ev, j, RegistryV { formats: fs, ..reg }),
                    Err(e) => Err(e),
                }
            } else if name == "spirvextensions"@ {
                match spec_do_spirvextensions(ev, i + 1, attrs, reg.spirv_extensions) {
                    Ok((xs, j)) => parse_sections(ev, j, RegistryV { spirv_extensions: xs, ..reg }),
                    Err(e) => Err(e),
                }
            } else if name == "spirvcapabilities"@ {
                match spec_do_spirvcapabilities(ev, i + 1, attrs, reg.spirv_capabilities) {
                    Ok((cs, j)) => parse_sections(
                        ev,
                        j,
                        RegistryV { spirv_capabilities: cs, ..reg },
                    ),
                    Err(e) => Err(e),
                }
            } else {
                Err(elem_err(name, "registry"@))
            },
            e => Err(elem_err(ev_tag(e), "registry"@)),
        }
    }
}

#[via_fn]
proof fn parse_sections_dec(ev: Seq<EventV>, i: int, reg: RegistryV) {
    if 0 <= i < ev.len() {
        match ev[i] {
            EventV::Start { name, attrs } => {
                lemma_skip_comment_advances(ev, i + 1);
                lemma_parse_platforms_advances(ev, i + 1, reg.platforms);
                lemma_parse_tags_advances(ev, i + 1, reg.vendors);
                lemma_parse_types_advances(ev, i + 1, reg.types);
                lemma_do_enums_advances(
                    ev,
                    i + 1,
                    attrs,
                    reg.api_constants,
                    reg.api_constant_aliases,
                    reg.enums_groups,
                );
                lemma_parse_commands_advances(ev, i + 1, reg.commands, reg.command_aliases);
                match feature_from_pairs(crate::attrs::attrs_of(attrs)) {
                    Ok(f) => lemma_parse_feature_body_advances(ev, i + 1, f),
                    Err(e) => {},
                }
                lemma_parse_extensions_advances(ev, i + 1, reg.extensions);
                lemma_parse_formats_advances(ev, i + 1, reg.formats);
                lemma_parse_spirv_extensions_advances(ev, i + 1, reg.spirv_extensions);
                lemma_parse_spirv_capabilities_advances(ev, i + 1, reg.spirv_capabilities);
            },
            _ => {},
        }
    }
}

/// A whole document's worth of events: the bare `<registry>` start tag,
/// then the sections through the matching end tag.
pub open spec fn parse_registry(ev: Seq<EventV>) -> Result<RegistryV, ErrV> {
    match spec_expect_bare_start(ev, 0, "registry"@, "registry"@) {
        Ok(j) => parse_sections(ev, j, empty_registry()),
        Err(e) => Err(e),
    }
}

/// The registry denoted by a document's text: the lexer's events, parsed.
pub open spec fn spec_parse_document(s: Seq<char>) -> Result<RegistryV, ErrV> {
    parse_registry(events_of(s))
}

impl VulkanRegistry {
    /// The registry before any section has been read.
    pub fn new() -> (r: VulkanRegistry)
        ensures
            r@ == empty_registry(),
    {
        let r = VulkanRegistry {
            platforms: Vec::new(),
            vendors: Vec::new(),
            types: Vec::new(),
            api_constants: Vec::new(),
            api_constant_aliases: Vec::new(),
            enums_groups: Vec::new(),
            commands: Vec::new(),
            command_aliases: Vec::new(),
            features: Vec::new(),
            extensions: Vec::new(),
            formats: Vec::new(),
            spirv_extensions: Vec::new(),
            spirv_capabilities: Vec::new(),
        };
        proof {
            assert(r@ =~~= empty_registry());
        }
        r
    }

    /// Parses a pre-lexed event stream into a registry.
    #[verifier::loop_isolation(false)]
    pub fn parse_events(events: &Vec<XmlEvent>) -> (r: Result<VulkanRegistry, ParseError>)
        ensures
            res_view(r) == parse_registry(events_view(events@)),
    {
        let ghost ev = events_view(events@);
        let mut registry = VulkanRegistry::new();
        let mut cur = match expect_bare_start(events, 0, "registry", "registry") {
            Ok(j) => j,
            Err(e) => {
                return Err(e);
            },
        };
        let ghost start = cur;
        loop
            invariant
                start <= cur,
                parse_sections(ev, cur as int, registry@) == parse_sections(
                    ev,
                    start as int,
                    empty_registry(),
                ),
            decreases ev.len() - cur,
        {
            if cur >= events.len() {
                return Err(ParseError::UnexpectedElement {
                    tag: String::new(),
                    context: "registry".to_owned(),
                });
            }
            proof {
                assert(ev[cur as int] == events@[cur as int]@);
            }
            let ghost reg0 = registry@;
            match &events[cur] {
                XmlEvent::End { name } => {
                    if str_eq(name.as_str(), "registry") {
                        return Ok(registry);
                    } else {
                        return Err(ParseError::UnexpectedElement {
                            tag: name.clone(),
                            context: "registry".to_owned(),
                        });
                    }
                },
                XmlEvent::Start { name, attrs } => {
                    if str_eq(name.as_str(), "comment") && attrs.as_str().is_empty() {
                        match eat_to_end_of_comment(events, cur + 1) {
                            Ok(j) => {
                                proof {
                                    lemma_skip_comment_advances(ev, cur as int + 1);
                                }
                                cur = j;
                            },
                            Err(e) => {
                                return Err(e);
                            },
                        }
                    } else if str_eq(name.as_str(), "platforms") {
                        match do_platforms(&mut registry.platforms, attrs.as_str(), events, cur + 1) {
                            Ok(j) => {
                                proof {
                                    lemma_parse_platforms_advances(
                                        ev,
                                        cur as int + 1,
                                        reg0.platforms,
                                    );
                                    assert(registry@ =~~= (RegistryV {
                                        platforms: seq_view(registry.platforms@),
                                        ..reg0
                                    }));
                                }
                                cur = j;
                            },
                            Err(e) => {
                                return Err(e);
                            },
                        }
                    } else if str_eq(name.as_str(), "tags") {
                        match do_tags(&mut registry.vendors, attrs.as_str(), events, cur + 1) {
                            Ok(j) => {
                                proof {
                                    lemma_parse_tags_advances(ev, cur as int + 1, reg0.vendors);
                                    assert(registry@ =~~= (RegistryV {
                                        vendors: seq_view(registry.vendors@),
                                        ..reg0
                                    }));
                                }
                                cur = j;
                            },
                            Err(e) => {
                                return Err(e);
                            },
                        }
                    } else if str_eq(name.as_str(), "types") {
                        match do_types(&mut registry.types, attrs.as_str(), events, cur + 1) {
                            Ok(j) => {
                                proof {
                                    lemma_parse_types_advances(ev, cur as int + 1, reg0.types);
                                    assert(registry@ =~~= (RegistryV {
                                        types: seq_view(registry.types@),
                                        ..reg0
                                    }));
                                }
                                cur = j;
                            },
                            Err(e) => {
                                return Err(e);
                            },
                        }
                    } else if str_eq(name.as_str(), "enums") {
                        match do_enums(
                            &mut registry.api_constants,
                            &mut registry.api_constant_aliases,
                            &mut registry.enums_groups,
                            attrs.as_str(),
                            events,
                            cur + 1,
                        ) {
                            Ok(j) => {
                                proof {
                                    lemma_do_enums_advances(
                                        ev,
                                        cur as int + 1,
                                        attrs@,
                                        reg0.api_constants,
                                        reg0.api_constant_aliases,
                                        reg0.enums_groups,
                                    );
                                    assert(registry@ =~~= (RegistryV {
                                        api_constants: seq_view(registry.api_constants@),
                                        api_constant_aliases: seq_view(
                                            registry.api_constant_aliases@,
                                        ),
                                        enums_groups: seq_view(registry.enums_groups@),
                                        ..reg0
                                    }));
                                }
                                cur = j;
                            },
                            Err(e) => {
                                return Err(e);
                            },
                        }
                    } else if str_eq(name.as_str(), "commands") {
                        match do_commands(
                            &mut registry.commands,
                            &mut registry.command_aliases,
                            attrs.as_str(),
                            events,
                            cur + 1,
                        ) {
                            Ok(j) => {
                                proof {
                                    lemma_parse_commands_advances(
                                        ev,
                                        cur as int + 1,
                                        reg0.commands,
                                        reg0.command_aliases,
                                    );
                                    assert(registry@ =~~= (RegistryV {
                                        commands: seq_view(registry.commands@),
                                        command_aliases: seq_view(registry.command_aliases@),
                                        ..reg0
                                    }));
                                }
                                cur = j;
                            },
                            Err(e) => {
                                return Err(e);
                            },
                        }
                    } else if str_eq(name.as_str(), "feature") {
                        match do_feature(&mut registry.features, attrs.as_str(), events, cur + 1) {
                            Ok(j) => {
                                proof {
                                    match feature_from_pairs(crate::attrs::attrs_of(attrs@)) {
                                        Ok(f) => lemma_parse_feature_body_advances(
                                            ev,
                                            cur as int + 1,
                                            f,
                                        ),
                                        Err(e) => {},
                                    }
                                    assert(registry@ =~~= (RegistryV {
                                        features: seq_view(registry.features@),
                                        ..reg0
                                    }));
                                }
                                cur = j;
                            },
                            Err(e) => {
                                return Err(e);
                            },
                        }
                    } else if str_eq(name.as_str(), "extensions") {
                        match do_extensions(
                            &mut registry.extensions,
                            attrs.as_str(),
                            events,
                            cur + 1,
                        ) {
                            Ok(j) => {
                                proof {
                                    lemma_parse_extensions_advances(
                                        ev,
                                        cur as int + 1,
                                        reg0.extensions,
                                    );
                                    assert(registry@ =~~= (RegistryV {
                                        extensions: seq_view(registry.extensions@),
                                        ..reg0
                                    }));
                                }
                                cur = j;
                            },
                            Err(e) => {
                                return Err(e);
                            },
                        }
                    } else if str_eq(name.as_str(), "formats") {
                        match do_formats(&mut registry.formats, attrs.as_str(), events, cur + 1) {
                            Ok(j) => {
                                proof {
                                    lemma_parse_formats_advances(ev, cur as int + 1, reg0.formats);
                                    assert(registry@ =~~= (RegistryV {
                                        formats: seq_view(registry.formats@),
                                        ..reg0
                                    }));
                                }
                                cur = j;
                            },
                            Err(e) => {
                                return Err(e);
                            },
                        }
                    } else if str_eq(name.as_str(), "spirvextensions") {
                        match do_spirvextensions(
                            &mut registry.spirv_extensions,
                            attrs.as_str(),
                            events,
                            cur + 1,
                        ) {
                            Ok(j) => {
                                proof {
                                    lemma_parse_spirv_extensions_advances(
                                        ev,
                                        cur as int + 1,
                                        reg0.spirv_extensions,
                                    );
                                    assert(registry@ =~~= (RegistryV {
                                        spirv_extensions: seq_view(registry.spirv_extensions@),
                                        ..reg0
                                    }));
                                }
                                cur = j;
                            },
                            Err(e) => {
                                return Err(e);
                            },
                        }
                    } else if str_eq(name.as_str(), "spirvcapabilities") {
                        match do_spirvcapabilities(
                            &mut registry.spirv_capabilities,
                            attrs.as_str(),
                            events,
                            cur + 1,
                        ) {
                            Ok(j) => {
                                proof {
                                    lemma_parse_spirv_capabilities_advances(
                                        ev,
                                        cur as int + 1,
                                        reg0.spirv_capabilities,
                                    );
                                    assert(registry@ =~~= (RegistryV {
                                        spirv_capabilities: seq_view(registry.spirv_capabilities@),
                                        ..reg0
                                    }));
                                }
                                cur = j;
                            },
                            Err(e) => {
                                return Err(e);
                            },
                        }
                    } else {
                        return Err(ParseError::UnexpectedElement {
                            tag: name.clone(),
                            context: "registry".to_owned(),
                        });
                    }
                },
                e => {
                    return Err(ParseError::UnexpectedElement {
                        tag: exec_ev_tag(e),
                        context: "registry".to_owned(),
                    });
                },
            }
        }
    }

    /// Parses a complete document into a registry, or fails with a
    /// structured error; no partial registry is ever returned.
    pub fn from_static_str(s: &str) -> (r: Result<VulkanRegistry, ParseError>)
        ensures
            res_view(r) == spec_parse_document(s@),
    {
        let events = lex_document(s);
        VulkanRegistry::parse_events(&events)
    }
}


/// Every tag at the top level that is not the registry end tag, a bare
/// comment, or a recognized section start is rejected: the dispatcher never
/// tolerates unknown top-level content.
pub proof fn lemma_sections_reject_unknown(ev: Seq<EventV>, i: int, reg: RegistryV)
    requires
        0 <= i < ev.len(),
        match ev[i] {
            EventV::End { name } => name != "registry"@,
            EventV::Start { name, attrs } => {
                &&& !(name == "comment"@ && attrs.len() == 0)
                &&& name != "platforms"@
                &&& name != "tags"@
                &&& name != "types"@
                &&& name != "enums"@
                &&& name != "commands"@
                &&& name != "feature"@
                &&& name != "extensions"@
                &&& name != "formats"@
                &&& name != "spirvextensions"@
                &&& name != "spirvcapabilities"@
            },
            _ => true,
        },
    ensures
        parse_sections(ev, i, reg) is Err,
{
}

/// A document holding nothing but the root element parses to the empty
/// registry: every section list is present and empty, not missing.
pub proof fn lemma_empty_document()
    ensures
        parse_registry(
            seq![
                EventV::Start { name: "registry"@, attrs: Seq::empty() },
                EventV::End { name: "registry"@ },
            ],
        ) == Ok::<RegistryV, ErrV>(empty_registry()),
{
}

} // verus!
