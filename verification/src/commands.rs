//! The `<commands>` section: API entry points.

use vstd::prelude::*;

use crate::attrs::{
    attrs_of, attrs_view, decode_attrs, first_err_by, found, keys_distinct, last_val,
    lemma_first_err_by_permutation_none, lemma_last_val_permutation, or_empty, opt_view,
    seq_view, Attr, AttrV,
};
use crate::errors::{malformed_err, missing_err, res_view, ErrV, ParseError};
use crate::utils::{str_eq};
use crate::attrs::{check_comment_only, comment_only_checker};
use crate::errors::{elem_err, end_err, shape_err};
use crate::events::{
    events_view, ev_tag, exec_ev_tag, expect_end, expect_text, spec_expect_end,
    spec_expect_text, spec_expect_text_element, expect_text_element, EventV, XmlEvent,
};
use crate::type_entry::{TypeVariant, TypeVariantV};

verus! {

/// A command that stands for another command by name.
#[derive(Debug, Clone, PartialEq, Eq)]
pub struct CommandAlias {
    pub name: String,
    pub alias_of: String,
}

/// The mathematical value of a [`CommandAlias`].
pub ghost struct CommandAliasV {
    pub name: Seq<char>,
    pub alias_of: Seq<char>,
}

impl View for CommandAlias {
    type V = CommandAliasV;

    open spec fn view(&self) -> CommandAliasV {
        CommandAliasV {
            name: self.name@,
            alias_of: self.alias_of@,
        }
    }
}

pub open spec fn command_alias_pair_err(p: AttrV) -> Option<ErrV> {
    if p.key == "name"@ {
        None
    } else if p.key == "alias"@ {
        None
    } else {
        Some(ErrV::UnexpectedAttribute { key: p.key, record_kind: "CommandAlias"@ })
    }
}

pub open spec fn command_alias_checker() -> spec_fn(AttrV) -> Option<ErrV> {
    |p: AttrV| command_alias_pair_err(p)
}

/// The attribute keys (and checked attribute values) of this record kind
/// are pairwise distinct text.
proof fn command_alias_key_facts()
    ensures
        "name"@ != "alias"@,
{
    reveal_strlit("alias");
    reveal_strlit("name");
    assert("alias"@.len() == 5);
    assert("alias"@[0] == 'a');
    assert("alias"@[1] == 'l');
    assert("alias"@[2] == 'i');
    assert("alias"@[3] == 'a');
    assert("alias"@[4] == 's');
    assert("name"@.len() == 4);
    assert("name"@[0] == 'n');
    assert("name"@[1] == 'a');
    assert("name"@[2] == 'm');
    assert("name"@[3] == 'e');
}

/// The record built from decoded pairs: every key must be mapped, and
/// the mandatory fields must be set.
pub open spec fn command_alias_from_pairs(ps: Seq<AttrV>) -> Result<CommandAliasV, ErrV> {
    match first_err_by(ps, command_alias_checker()) {
        Some(e) => Err(e),
        None => if or_empty(last_val(ps, "name"@)).len() == 0 {
            Err(missing_err("name"@, "CommandAlias"@))
        } else {
            Ok(
                CommandAliasV {
                    name: or_empty(last_val(ps, "name"@)),
                    alias_of: or_empty(last_val(ps, "alias"@)),
                },
            )
        },
    }
}

impl CommandAlias {
    /// Builds a `CommandAlias` from decoded attribute pairs.
    #[verifier::loop_isolation(false)]
    pub fn from_pairs(pairs: &Vec<Attr>) -> (r: Result<CommandAlias, ParseError>)
        ensures
            res_view(r) == command_alias_from_pairs(attrs_view(pairs@)),
    {
        let ghost aps = attrs_view(pairs@);
        let ghost f = command_alias_checker();
        let mut name: Option<String> = None;
        let mut alias_of: String = String::new();
        let mut idx: usize = 0;
        proof {
            assert(aps.skip(0) =~= aps);
            assert(aps.take(0) =~= Seq::<AttrV>::empty());
        }
        while idx < pairs.len()
            invariant
                idx <= pairs@.len(),
                first_err_by(aps, f) == first_err_by(aps.skip(idx as int), f),
                opt_view(name) == last_val(aps.take(idx as int), "name"@),
                alias_of@ == or_empty(last_val(aps.take(idx as int), "alias"@)),
            decreases pairs@.len() - idx,
        {
            let ghost p = aps[idx as int];
            proof {
                command_alias_key_facts();
                assert(p == pairs@[idx as int]@);
                assert(aps.skip(idx as int)[0] == p);
                assert(aps.skip(idx as int).drop_first() =~= aps.skip(idx as int + 1));
                assert(aps.take(idx as int + 1).drop_last() =~= aps.take(idx as int));
                assert(aps.take(idx as int + 1).last() == p);
            }
            let a = &pairs[idx];
            if str_eq(a.key.as_str(), "name") {
                name = Some(a.value.clone());
            } else if str_eq(a.key.as_str(), "alias") {
                alias_of = a.value.clone();
            } else {
                return Err(ParseError::UnexpectedAttribute {
                    key: a.key.clone(),
                    record_kind: "CommandAlias".to_owned(),
                });
            }
            idx += 1;
        }
        proof {
            assert(aps.skip(pairs@.len() as int) =~= Seq::<AttrV>::empty());
            assert(aps.take(pairs@.len() as int) =~= aps);
        }
        let name = match name {
            Some(v) => v,
            None => {
                return Err(ParseError::MissingRequiredAttribute {
                    name: "name".to_owned(),
                    record_kind: "CommandAlias".to_owned(),
                });
            },
        };
        if name.as_str().is_empty() {
            return Err(ParseError::MissingRequiredAttribute {
                name: "name".to_owned(),
                record_kind: "CommandAlias".to_owned(),
            });
        }
        Ok(CommandAlias {
            name,
            alias_of,
        })
    }

    /// Builds a `CommandAlias` from a tag's raw attribute text.
    pub fn from_attrs(attrs: &str) -> (r: Result<CommandAlias, ParseError>)
        ensures
            res_view(r) == command_alias_from_pairs(attrs_of(attrs@)),
    {
        let pairs = decode_attrs(attrs);
        CommandAlias::from_pairs(&pairs)
    }
}

/// Permuting the tag's attribute pairs never changes the
/// record built, as long as the pair list is valid: keys all distinct and
/// the record accepted.
pub proof fn lemma_command_alias_attr_order(ps1: Seq<AttrV>, ps2: Seq<AttrV>)
    requires
        keys_distinct(ps1),
        ps1.to_multiset() == ps2.to_multiset(),
        command_alias_from_pairs(ps1) is Ok,
    ensures
        command_alias_from_pairs(ps2) == command_alias_from_pairs(ps1),
{
    lemma_first_err_by_permutation_none(ps1, ps2, command_alias_checker());
    lemma_last_val_permutation(ps1, ps2, "name"@);
    lemma_last_val_permutation(ps1, ps2, "alias"@);
}

/// An API entry point: its prototype and ordered parameters.
#[derive(Debug, Clone, PartialEq, Eq)]
pub struct Command {
    pub name: String,
    pub params: Vec<Param>,
    pub return_ty: String,
    pub comment: Option<String>,
    pub success_codes: Option<String>,
    pub error_codes: Option<String>,
    pub implicit_extern_sync_params: Option<String>,
    pub api: Option<String>,
    pub queues: Option<String>,
    pub render_pass: Option<String>,
    pub cmd_buffer_level: Option<String>,
    pub tasks: Option<String>,
    pub video_coding: Option<String>,
}

/// The mathematical value of a [`Command`].
pub ghost struct CommandV {
    pub name: Seq<char>,
    pub params: Seq<ParamV>,
    pub return_ty: Seq<char>,
    pub comment: Option<Seq<char>>,
    pub success_codes: Option<Seq<char>>,
    pub error_codes: Option<Seq<char>>,
    pub implicit_extern_sync_params: Option<Seq<char>>,
    pub api: Option<Seq<char>>,
    pub queues: Option<Seq<char>>,
    pub render_pass: Option<Seq<char>>,
    pub cmd_buffer_level: Option<Seq<char>>,
    pub tasks: Option<Seq<char>>,
    pub video_coding: Option<Seq<char>>,
}

impl View for Command {
    type V = CommandV;

    open spec fn view(&self) -> CommandV {
        CommandV {
            name: self.name@,
            params: seq_view(self.params@),
            return_ty: self.return_ty@,
            comment: opt_view(self.comment),
            success_codes: opt_view(self.success_codes),
            error_codes: opt_view(self.error_codes),
            implicit_extern_sync_params: opt_view(self.implicit_extern_sync_params),
            api: opt_view(self.api),
            queues: opt_view(self.queues),
            render_pass: opt_view(self.render_pass),
            cmd_buffer_level: opt_view(self.cmd_buffer_level),
            tasks: opt_view(self.tasks),
            video_coding: opt_view(self.video_coding),
        }
    }
}

pub open spec fn command_pair_err(p: AttrV) -> Option<ErrV> {
    if p.key == "comment"@ {
        None
    } else if p.key == "successcodes"@ {
        None
    } else if p.key == "errorcodes"@ {
        None
    } else if p.key == "api"@ {
        None
    } else if p.key == "queues"@ {
        None
    } else if p.key == "renderpass"@ {
        None
    } else if p.key == "cmdbufferlevel"@ {
        None
    } else if p.key == "tasks"@ {
        None
    } else if p.key == "videocoding"@ {
        None
    } else {
        Some(ErrV::UnexpectedAttribute { key: p.key, record_kind: "Command"@ })
    }
}

pub open spec fn command_checker() -> spec_fn(AttrV) -> Option<ErrV> {
    |p: AttrV| command_pair_err(p)
}

/// The attribute keys (and checked attribute values) of this record kind
/// are pairwise distinct text.
proof fn command_key_facts()
    ensures
        "comment"@ != "successcodes"@,
        "comment"@ != "errorcodes"@,
        "comment"@ != "api"@,
        "comment"@ != "queues"@,
        "comment"@ != "renderpass"@,
        "comment"@ != "cmdbufferlevel"@,
        "comment"@ != "tasks"@,
        "comment"@ != "videocoding"@,
        "successcodes"@ != "errorcodes"@,
        "successcodes"@ != "api"@,
        "successcodes"@ != "queues"@,
        "successcodes"@ != "renderpass"@,
        "successcodes"@ != "cmdbufferlevel"@,
        "successcodes"@ != "tasks"@,
        "successcodes"@ != "videocoding"@,
        "errorcodes"@ != "api"@,
        "errorcodes"@ != "queues"@,
        "errorcodes"@ != "renderpass"@,
        "errorcodes"@ != "cmdbufferlevel"@,
        "errorcodes"@ != "tasks"@,
        "errorcodes"@ != "videocoding"@,
        "api"@ != "queues"@,
        "api"@ != "renderpass"@,
        "api"@ != "cmdbufferlevel"@,
        "api"@ != "tasks"@,
        "api"@ != "videocoding"@,
        "queues"@ != "renderpass"@,
        "queues"@ != "cmdbufferlevel"@,
        "queues"@ != "tasks"@,
        "queues"@ != "videocoding"@,
        "renderpass"@ != "cmdbufferlevel"@,
        "renderpass"@ != "tasks"@,
        "renderpass"@ != "videocoding"@,
        "cmdbufferlevel"@ != "tasks"@,
        "cmdbufferlevel"@ != "videocoding"@,
        "tasks"@ != "videocoding"@,
{
    reveal_strlit("api");
    reveal_strlit("cmdbufferlevel");
    reveal_strlit("comment");
    reveal_strlit("errorcodes");
    reveal_strlit("queues");
    reveal_strlit("renderpass");
    reveal_strlit("successcodes");
    reveal_strlit("tasks");
    reveal_strlit("videocoding");
    assert("api"@.len() == 3);
    assert("api"@[0] == 'a');
    assert("api"@[1] == 'p');
    assert("api"@[2] == 'i');
    assert("cmdbufferlevel"@.len() == 14);
    assert("cmdbufferlevel"@[0] == 'c');
    assert("cmdbufferlevel"@[1] == 'm');
    assert("cmdbufferlevel"@[2] == 'd');
    assert("cmdbufferlevel"@[3] == 'b');
    assert("cmdbufferlevel"@[4] == 'u');
    assert("cmdbufferlevel"@[5] == 'f');
    assert("cmdbufferlevel"@[6] == 'f');
    assert("cmdbufferlevel"@[7] == 'e');
    assert("cmdbufferlevel"@[8] == 'r');
    assert("cmdbufferlevel"@[9] == 'l');
    assert("cmdbufferlevel"@[10] == 'e');
    assert("cmdbufferlevel"@[11] == 'v');
    assert("cmdbufferlevel"@[12] == 'e');
    assert("cmdbufferlevel"@[13] == 'l');
    assert("comment"@.len() == 7);
    assert("comment"@[0] == 'c');
    assert("comment"@[1] == 'o');
    assert("comment"@[2] == 'm');
    assert("comment"@[3] == 'm');
    assert("comment"@[4] == 'e');
    assert("comment"@[5] == 'n');
    assert("comment"@[6] == 't');
    assert("errorcodes"@.len() == 10);
    assert("errorcodes"@[0] == 'e');
    assert("errorcodes"@[1] == 'r');
    assert("errorcodes"@[2] == 'r');
    assert("errorcodes"@[3] == 'o');
    assert("errorcodes"@[4] == 'r');
    assert("errorcodes"@[5] == 'c');
    assert("errorcodes"@[6] == 'o');
    assert("errorcodes"@[7] == 'd');
    assert("errorcodes"@[8] == 'e');
    assert("errorcodes"@[9] == 's');
    assert("queues"@.len() == 6);
    assert("queues"@[0] == 'q');
    assert("queues"@[1] == 'u');
    assert("queues"@[2] == 'e');
    assert("queues"@[3] == 'u');
    assert("queues"@[4] == 'e');
    assert("queues"@[5] == 's');
    assert("renderpass"@.len() == 10);
    assert("renderpass"@[0] == 'r');
    assert("renderpass"@[1] == 'e');
    assert("renderpass"@[2] == 'n');
    assert("renderpass"@[3] == 'd');
    assert("renderpass"@[4] == 'e');
    assert("renderpass"@[5] == 'r');
    assert("renderpass"@[6] == 'p');
    assert("renderpass"@[7] == 'a');
    assert("renderpass"@[8] == 's');
    assert("renderpass"@[9] == 's');
    assert("successcodes"@.len() == 12);
    assert("successcodes"@[0] == 's');
    assert("successcodes"@[1] == 'u');
    assert("successcodes"@[2] == 'c');
    assert("successcodes"@[3] == 'c');
    assert("successcodes"@[4] == 'e');
    assert("successcodes"@[5] == 's');
    assert("successcodes"@[6] == 's');
    assert("successcodes"@[7] == 'c');
    assert("successcodes"@[8] == 'o');
    assert("successcodes"@[9] == 'd');
    assert("successcodes"@[10] == 'e');
    assert("successcodes"@[11] == 's');
    assert("tasks"@.len() == 5);
    assert("tasks"@[0] == 't');
    assert("tasks"@[1] == 'a');
    assert("tasks"@[2] == 's');
    assert("tasks"@[3] == 'k');
    assert("tasks"@[4] == 's');
    assert("videocoding"@.len() == 11);
    assert("videocoding"@[0] == 'v');
    assert("videocoding"@[1] == 'i');
    assert("videocoding"@[2] == 'd');
    assert("videocoding"@[3] == 'e');
    assert("videocoding"@[4] == 'o');
    assert("videocoding"@[5] == 'c');
    assert("videocoding"@[6] == 'o');
    assert("videocoding"@[7] == 'd');
    assert("videocoding"@[8] == 'i');
    assert("videocoding"@[9] == 'n');
    assert("videocoding"@[10] == 'g');
}

/// The record built from decoded pairs: every key must be mapped, and
/// the mandatory fields must be set.
pub open spec fn command_from_pairs(ps: Seq<AttrV>) -> Result<CommandV, ErrV> {
    match first_err_by(ps, command_checker()) {
        Some(e) => Err(e),
        None => Ok(
            CommandV {
                name: Seq::empty(),
                params: Seq::empty(),
                return_ty: Seq::empty(),
                comment: last_val(ps, "comment"@),
                success_codes: last_val(ps, "successcodes"@),
                error_codes: last_val(ps, "errorcodes"@),
                implicit_extern_sync_params: None,
                api: last_val(ps, "api"@),
                queues: last_val(ps, "queues"@),
                render_pass: last_val(ps, "renderpass"@),
                cmd_buffer_level: last_val(ps, "cmdbufferlevel"@),
                tasks: last_val(ps, "tasks"@),
                video_coding: last_val(ps, "videocoding"@),
            },
        ),
    }
}

impl Command {
    /// Builds a `Command` from decoded attribute pairs.
    #[verifier::loop_isolation(false)]
    pub fn from_pairs(pairs: &Vec<Attr>) -> (r: Result<Command, ParseError>)
        ensures
            res_view(r) == command_from_pairs(attrs_view(pairs@)),
    {
        let ghost aps = attrs_view(pairs@);
        let ghost f = command_checker();
        let mut comment: Option<String> = None;
        let mut success_codes: Option<String> = None;
        let mut error_codes: Option<String> = None;
        let mut api: Option<String> = None;
        let mut queues: Option<String> = None;
        let mut render_pass: Option<String> = None;
        let mut cmd_buffer_level: Option<String> = None;
        let mut tasks: Option<String> = None;
        let mut video_coding: Option<String> = None;
        let mut idx: usize = 0;
        proof {
            assert(aps.skip(0) =~= aps);
            assert(aps.take(0) =~= Seq::<AttrV>::empty());
        }
        while idx < pairs.len()
            invariant
                idx <= pairs@.len(),
                first_err_by(aps, f) == first_err_by(aps.skip(idx as int), f),
                opt_view(comment) == last_val(aps.take(idx as int), "comment"@),
                opt_view(success_codes) == last_val(aps.take(idx as int), "successcodes"@),
                opt_view(error_codes) == last_val(aps.take(idx as int), "errorcodes"@),
                opt_view(api) == last_val(aps.take(idx as int), "api"@),
                opt_view(queues) == last_val(aps.take(idx as int), "queues"@),
                opt_view(render_pass) == last_val(aps.take(idx as int), "renderpass"@),
                opt_view(cmd_buffer_level) == last_val(aps.take(idx as int), "cmdbufferlevel"@),
                opt_view(tasks) == last_val(aps.take(idx as int), "tasks"@),
                opt_view(video_coding) == last_val(aps.take(idx as int), "videocoding"@),
            decreases pairs@.len() - idx,
        {
            let ghost p = aps[idx as int];
            proof {
                command_key_facts();
                assert(p == pairs@[idx as int]@);
                assert(aps.skip(idx as int)[0] == p);
                assert(aps.skip(idx as int).drop_first() =~= aps.skip(idx as int + 1));
                assert(aps.take(idx as int + 1).drop_last() =~= aps.take(idx as int));
                assert(aps.take(idx as int + 1).last() == p);
            }
            let a = &pairs[idx];
            if str_eq(a.key.as_str(), "comment") {
                comment = Some(a.value.clone());
            } else if str_eq(a.key.as_str(), "successcodes") {
                success_codes = Some(a.value.clone());
            } else if str_eq(a.key.as_str(), "errorcodes") {
                error_codes = Some(a.value.clone());
            } else if str_eq(a.key.as_str(), "api") {
                api = Some(a.value.clone());
            } else if str_eq(a.key.as_str(), "queues") {
                queues = Some(a.value.clone());
            } else if str_eq(a.key.as_str(), "renderpass") {
                render_pass = Some(a.value.clone());
            } else if str_eq(a.key.as_str(), "cmdbufferlevel") {
                cmd_buffer_level = Some(a.value.clone());
            } else if str_eq(a.key.as_str(), "tasks") {
                tasks = Some(a.value.clone());
            } else if str_eq(a.key.as_str(), "videocoding") {
                video_coding = Some(a.value.clone());
            } else {
                return Err(ParseError::UnexpectedAttribute {
                    key: a.key.clone(),
                    record_kind: "Command".to_owned(),
                });
            }
            idx += 1;
        }
        proof {
            assert(aps.skip(pairs@.len() as int) =~= Seq::<AttrV>::empty());
            assert(aps.take(pairs@.len() as int) =~= aps);
        }
        proof {
            assert(seq_view(Seq::<Param>::empty()) =~= Seq::<ParamV>::empty());
        }
        Ok(Command {
            name: String::new(),
            params: Vec::new(),
            return_ty: String::new(),
            comment,
            success_codes,
            error_codes,
            implicit_extern_sync_params: None,
            api,
            queues,
            render_pass,
            cmd_buffer_level,
            tasks,
            video_coding,
        })
    }

    /// Builds a `Command` from a tag's raw attribute text.
    pub fn from_attrs(attrs: &str) -> (r: Result<Command, ParseError>)
        ensures
            res_view(r) == command_from_pairs(attrs_of(attrs@)),
    {
        let pairs = decode_attrs(attrs);
        Command::from_pairs(&pairs)
    }
}

/// Permuting the tag's attribute pairs never changes the
/// record built, as long as the pair list is valid: keys all distinct and
/// the record accepted.
pub proof fn lemma_command_attr_order(ps1: Seq<AttrV>, ps2: Seq<AttrV>)
    requires
        keys_distinct(ps1),
        ps1.to_multiset() == ps2.to_multiset(),
        command_from_pairs(ps1) is Ok,
    ensures
        command_from_pairs(ps2) == command_from_pairs(ps1),
{
    lemma_first_err_by_permutation_none(ps1, ps2, command_checker());
    lemma_last_val_permutation(ps1, ps2, "comment"@);
    lemma_last_val_permutation(ps1, ps2, "successcodes"@);
    lemma_last_val_permutation(ps1, ps2, "errorcodes"@);
    lemma_last_val_permutation(ps1, ps2, "api"@);
    lemma_last_val_permutation(ps1, ps2, "queues"@);
    lemma_last_val_permutation(ps1, ps2, "renderpass"@);
    lemma_last_val_permutation(ps1, ps2, "cmdbufferlevel"@);
    lemma_last_val_permutation(ps1, ps2, "tasks"@);
    lemma_last_val_permutation(ps1, ps2, "videocoding"@);
}

/// One parameter of a command, with its inferred type shape.
#[derive(Debug, Clone, PartialEq, Eq)]
pub struct Param {
    pub name: String,
    pub ty: String,
    pub ty_variant: TypeVariant,
    pub optional: Option<String>,
    pub extern_sync: Option<String>,
    pub len: Option<String>,
    pub alt_len: Option<String>,
    pub api: Option<String>,
    pub no_auto_validity: bool,
    pub stride: Option<String>,
    pub object_type: Option<String>,
    pub valid_structs: Option<String>,
}

/// The mathematical value of a [`Param`].
pub ghost struct ParamV {
    pub name: Seq<char>,
    pub ty: Seq<char>,
    pub ty_variant: TypeVariantV,
    pub optional: Option<Seq<char>>,
    pub extern_sync: Option<Seq<char>>,
    pub len: Option<Seq<char>>,
    pub alt_len: Option<Seq<char>>,
    pub api: Option<Seq<char>>,
    pub no_auto_validity: bool,
    pub stride: Option<Seq<char>>,
    pub object_type: Option<Seq<char>>,
    pub valid_structs: Option<Seq<char>>,
}

impl View for Param {
    type V = ParamV;

    open spec fn view(&self) -> ParamV {
        ParamV {
            name: self.name@,
            ty: self.ty@,
            ty_variant: self.ty_variant@,
            optional: opt_view(self.optional),
            extern_sync: opt_view(self.extern_sync),
            len: opt_view(self.len),
            alt_len: opt_view(self.alt_len),
            api: opt_view(self.api),
            no_auto_validity: self.no_auto_validity,
            stride: opt_view(self.stride),
            object_type: opt_view(self.object_type),
            valid_structs: opt_view(self.valid_structs),
        }
    }
}

pub open spec fn param_pair_err(p: AttrV) -> Option<ErrV> {
    if p.key == "optional"@ {
        None
    } else if p.key == "externsync"@ {
        None
    } else if p.key == "len"@ {
        None
    } else if p.key == "altlen"@ {
        None
    } else if p.key == "api"@ {
        None
    } else if p.key == "noautovalidity"@ {
        if p.value == "true"@ {
                None
            } else {
                Some(malformed_err("noautovalidity"@, p.value))
            }
    } else if p.key == "stride"@ {
        None
    } else if p.key == "objecttype"@ {
        None
    } else if p.key == "validstructs"@ {
        None
    } else {
        Some(ErrV::UnexpectedAttribute { key: p.key, record_kind: "Param"@ })
    }
}

pub open spec fn param_checker() -> spec_fn(AttrV) -> Option<ErrV> {
    |p: AttrV| param_pair_err(p)
}

/// The attribute keys (and checked attribute values) of this record kind
/// are pairwise distinct text.
proof fn param_key_facts()
    ensures
        "optional"@ != "externsync"@,
        "optional"@ != "len"@,
        "optional"@ != "altlen"@,
        "optional"@ != "api"@,
        "optional"@ != "noautovalidity"@,
        "optional"@ != "stride"@,
        "optional"@ != "objecttype"@,
        "optional"@ != "validstructs"@,
        "externsync"@ != "len"@,
        "externsync"@ != "altlen"@,
        "externsync"@ != "api"@,
        "externsync"@ != "noautovalidity"@,
        "externsync"@ != "stride"@,
        "externsync"@ != "objecttype"@,
        "externsync"@ != "validstructs"@,
        "len"@ != "altlen"@,
        "len"@ != "api"@,
        "len"@ != "noautovalidity"@,
        "len"@ != "stride"@,
        "len"@ != "objecttype"@,
        "len"@ != "validstructs"@,
        "altlen"@ != "api"@,
        "altlen"@ != "noautovalidity"@,
        "altlen"@ != "stride"@,
        "altlen"@ != "objecttype"@,
        "altlen"@ != "validstructs"@,
        "api"@ != "noautovalidity"@,
        "api"@ != "stride"@,
        "api"@ != "objecttype"@,
        "api"@ != "validstructs"@,
        "noautovalidity"@ != "stride"@,
        "noautovalidity"@ != "objecttype"@,
        "noautovalidity"@ != "validstructs"@,
        "stride"@ != "objecttype"@,
        "stride"@ != "validstructs"@,
        "objecttype"@ != "validstructs"@,
{
    reveal_strlit("altlen");
    reveal_strlit("api");
    reveal_strlit("externsync");
    reveal_strlit("len");
    reveal_strlit("noautovalidity");
    reveal_strlit("objecttype");
    reveal_strlit("optional");
    reveal_strlit("stride");
    reveal_strlit("true");
    reveal_strlit("validstructs");
    assert("altlen"@.len() == 6);
    assert("altlen"@[0] == 'a');
    assert("altlen"@[1] == 'l');
    assert("altlen"@[2] == 't');
    assert("altlen"@[3] == 'l');
    assert("altlen"@[4] == 'e');
    assert("altlen"@[5] == 'n');
    assert("api"@.len() == 3);
    assert("api"@[0] == 'a');
    assert("api"@[1] == 'p');
    assert("api"@[2] == 'i');
    assert("externsync"@.len() == 10);
    assert("externsync"@[0] == 'e');
    assert("externsync"@[1] == 'x');
    assert("externsync"@[2] == 't');
    assert("externsync"@[3] == 'e');
    assert("externsync"@[4] == 'r');
    assert("externsync"@[5] == 'n');
    assert("externsync"@[6] == 's');
    assert("externsync"@[7] == 'y');
    assert("externsync"@[8] == 'n');
    assert("externsync"@[9] == 'c');
    assert("len"@.len() == 3);
    assert("len"@[0] == 'l');
    assert("len"@[1] == 'e');
    assert("len"@[2] == 'n');
    assert("noautovalidity"@.len() == 14);
    assert("noautovalidity"@[0] == 'n');
    assert("noautovalidity"@[1] == 'o');
    assert("noautovalidity"@[2] == 'a');
    assert("noautovalidity"@[3] == 'u');
    assert("noautovalidity"@[4] == 't');
    assert("noautovalidity"@[5] == 'o');
    assert("noautovalidity"@[6] == 'v');
    assert("noautovalidity"@[7] == 'a');
    assert("noautovalidity"@[8] == 'l');
    assert("noautovalidity"@[9] == 'i');
    assert("noautovalidity"@[10] == 'd');
    assert("noautovalidity"@[11] == 'i');
    assert("noautovalidity"@[12] == 't');
    assert("noautovalidity"@[13] == 'y');
    assert("objecttype"@.len() == 10);
    assert("objecttype"@[0] == 'o');
    assert("objecttype"@[1] == 'b');
    assert("objecttype"@[2] == 'j');
    assert("objecttype"@[3] == 'e');
    assert("objecttype"@[4] == 'c');
    assert("objecttype"@[5] == 't');
    assert("objecttype"@[6] == 't');
    assert("objecttype"@[7] == 'y');
    assert("objecttype"@[8] == 'p');
    assert("objecttype"@[9] == 'e');
    assert("optional"@.len() == 8);
    assert("optional"@[0] == 'o');
    assert("optional"@[1] == 'p');
    assert("optional"@[2] == 't');
    assert("optional"@[3] == 'i');
    assert("optional"@[4] == 'o');
    assert("optional"@[5] == 'n');
    assert("optional"@[6] == 'a');
    assert("optional"@[7] == 'l');
    assert("stride"@.len() == 6);
    assert("stride"@[0] == 's');
    assert("stride"@[1] == 't');
    assert("stride"@[2] == 'r');
    assert("stride"@[3] == 'i');
    assert("stride"@[4] == 'd');
    assert("stride"@[5] == 'e');
    assert("true"@.len() == 4);
    assert("true"@[0] == 't');
    assert("true"@[1] == 'r');
    assert("true"@[2] == 'u');
    assert("true"@[3] == 'e');
    assert("validstructs"@.len() == 12);
    assert("validstructs"@[0] == 'v');
    assert("validstructs"@[1] == 'a');
    assert("validstructs"@[2] == 'l');
    assert("validstructs"@[3] == 'i');
    assert("validstructs"@[4] == 'd');
    assert("validstructs"@[5] == 's');
    assert("validstructs"@[6] == 't');
    assert("validstructs"@[7] == 'r');
    assert("validstructs"@[8] == 'u');
    assert("validstructs"@[9] == 'c');
    assert("validstructs"@[10] == 't');
    assert("validstructs"@[11] == 's');
}

/// The record built from decoded pairs: every key must be mapped, and
/// the mandatory fields must be set.
pub open spec fn param_from_pairs(ps: Seq<AttrV>) -> Result<ParamV, ErrV> {
    match first_err_by(ps, param_checker()) {
        Some(e) => Err(e),
        None => Ok(
            ParamV {
                name: Seq::empty(),
                ty: Seq::empty(),
                ty_variant: TypeVariantV::Normal,
                optional: last_val(ps, "optional"@),
                extern_sync: last_val(ps, "externsync"@),
                len: last_val(ps, "len"@),
                alt_len: last_val(ps, "altlen"@),
                api: last_val(ps, "api"@),
                no_auto_validity: found(ps, "noautovalidity"@),
                stride: last_val(ps, "stride"@),
                object_type: last_val(ps, "objecttype"@),
                valid_structs: last_val(ps, "validstructs"@),
            },
        ),
    }
}

impl Param {
    /// Builds a `Param` from decoded attribute pairs.
    #[verifier::loop_isolation(false)]
    pub fn from_pairs(pairs: &Vec<Attr>) -> (r: Result<Param, ParseError>)
        ensures
            res_view(r) == param_from_pairs(attrs_view(pairs@)),
    {
        let ghost aps = attrs_view(pairs@);
        let ghost f = param_checker();
        let mut optional: Option<String> = None;
        let mut extern_sync: Option<String> = None;
        let mut len: Option<String> = None;
        let mut alt_len: Option<String> = None;
        let mut api: Option<String> = None;
        let mut no_auto_validity: bool = false;
        let mut stride: Option<String> = None;
        let mut object_type: Option<String> = None;
        let mut valid_structs: Option<String> = None;
        let mut idx: usize = 0;
        proof {
            assert(aps.skip(0) =~= aps);
            assert(aps.take(0) =~= Seq::<AttrV>::empty());
        }
        while idx < pairs.len()
            invariant
                idx <= pairs@.len(),
                first_err_by(aps, f) == first_err_by(aps.skip(idx as int), f),
                opt_view(optional) == last_val(aps.take(idx as int), "optional"@),
                opt_view(extern_sync) == last_val(aps.take(idx as int), "externsync"@),
                opt_view(len) == last_val(aps.take(idx as int), "len"@),
                opt_view(alt_len) == last_val(aps.take(idx as int), "altlen"@),
                opt_view(api) == last_val(aps.take(idx as int), "api"@),
                no_auto_validity == found(aps.take(idx as int), "noautovalidity"@),
                opt_view(stride) == last_val(aps.take(idx as int), "stride"@),
                opt_view(object_type) == last_val(aps.take(idx as int), "objecttype"@),
                opt_view(valid_structs) == last_val(aps.take(idx as int), "validstructs"@),
            decreases pairs@.len() - idx,
        {
            let ghost p = aps[idx as int];
            proof {
                param_key_facts();
                assert(p == pairs@[idx as int]@);
                assert(aps.skip(idx as int)[0] == p);
                assert(aps.skip(idx as int).drop_first() =~= aps.skip(idx as int + 1));
                assert(aps.take(idx as int + 1).drop_last() =~= aps.take(idx as int));
                assert(aps.take(idx as int + 1).last() == p);
            }
            let a = &pairs[idx];
            if str_eq(a.key.as_str(), "optional") {
                optional = Some(a.value.clone());
            } else if str_eq(a.key.as_str(), "externsync") {
                extern_sync = Some(a.value.clone());
            } else if str_eq(a.key.as_str(), "len") {
                len = Some(a.value.clone());
            } else if str_eq(a.key.as_str(), "altlen") {
                alt_len = Some(a.value.clone());
            } else if str_eq(a.key.as_str(), "api") {
                api = Some(a.value.clone());
            } else if str_eq(a.key.as_str(), "noautovalidity") {
                if str_eq(a.value.as_str(), "true") {
                    no_auto_validity = true;
                } else {
                    return Err(ParseError::MalformedAttributeValue {
                        key: a.key.clone(),
                        raw_value: a.value.clone(),
                    });
                }
            } else if str_eq(a.key.as_str(), "stride") {
                stride = Some(a.value.clone());
            } else if str_eq(a.key.as_str(), "objecttype") {
                object_type = Some(a.value.clone());
            } else if str_eq(a.key.as_str(), "validstructs") {
                valid_structs = Some(a.value.clone());
            } else {
                return Err(ParseError::UnexpectedAttribute {
                    key: a.key.clone(),
                    record_kind: "Param".to_owned(),
                });
            }
            idx += 1;
        }
        proof {
            assert(aps.skip(pairs@.len() as int) =~= Seq::<AttrV>::empty());
            assert(aps.take(pairs@.len() as int) =~= aps);
        }
        Ok(Param {
            name: String::new(),
            ty: String::new(),
            ty_variant: TypeVariant::Normal,
            optional,
            extern_sync,
            len,
            alt_len,
            api,
            no_auto_validity,
            stride,
            object_type,
            valid_structs,
        })
    }

    /// Builds a `Param` from a tag's raw attribute text.
    pub fn from_attrs(attrs: &str) -> (r: Result<Param, ParseError>)
        ensures
            res_view(r) == param_from_pairs(attrs_of(attrs@)),
    {
        let pairs = decode_attrs(attrs);
        Param::from_pairs(&pairs)
    }
}

/// Permuting the tag's attribute pairs never changes the
/// record built, as long as the pair list is valid: keys all distinct and
/// the record accepted.
pub proof fn lemma_param_attr_order(ps1: Seq<AttrV>, ps2: Seq<AttrV>)
    requires
        keys_distinct(ps1),
        ps1.to_multiset() == ps2.to_multiset(),
        param_from_pairs(ps1) is Ok,
    ensures
        param_from_pairs(ps2) == param_from_pairs(ps1),
{
    lemma_first_err_by_permutation_none(ps1, ps2, param_checker());
    lemma_last_val_permutation(ps1, ps2, "optional"@);
    lemma_last_val_permutation(ps1, ps2, "externsync"@);
    lemma_last_val_permutation(ps1, ps2, "len"@);
    lemma_last_val_permutation(ps1, ps2, "altlen"@);
    lemma_last_val_permutation(ps1, ps2, "api"@);
    lemma_last_val_permutation(ps1, ps2, "noautovalidity"@);
    lemma_last_val_permutation(ps1, ps2, "stride"@);
    lemma_last_val_permutation(ps1, ps2, "objecttype"@);
    lemma_last_val_permutation(ps1, ps2, "validstructs"@);
}

/// The qualifier phase of a parameter: leading `struct`, `const` and
/// `const struct` text tokens up to the `<type>` sub-element, whose text is
/// the base type name.
pub open spec fn parse_param_qualifier(ev: Seq<EventV>, i: int, p: ParamV) -> Result<
    (ParamV, int),
    ErrV,
>
    decreases ev.len() - i,
{
    if i < 0 || i >= ev.len() {
        Err(end_err("param"@))
    } else {
        match ev[i] {
            EventV::Text { text } => if text == "struct"@ {
                parse_param_qualifier(ev, i + 1, p)
            } else if text == "const"@ || text == "const struct"@ {
                parse_param_qualifier(
                    ev,
                    i + 1,
                    ParamV { ty_variant: TypeVariantV::ConstPtr, ..p },
                )
            } else {
                Err(shape_err(text))
            },
            EventV::Start { name, attrs } => if name == "type"@ && attrs.len() == 0 {
                match spec_expect_text(ev, i + 1, "param"@) {
                    Ok(t) => match spec_expect_end(ev, i + 2, "type"@, "param"@) {
                        Ok(j) => Ok((ParamV { ty: t, ..p }, j)),
                        Err(e) => Err(e),
                    },
                    Err(e) => Err(e),
                }
            } else {
                Err(shape_err(name))
            },
            e => Err(shape_err(ev_tag(e))),
        }
    }
}

/// The declarator phase of a parameter: pointer markers up to the `<name>`
/// sub-element, whose text is the parameter name.
pub open spec fn parse_param_declarator(ev: Seq<EventV>, i: int, p: ParamV) -> Result<
    (ParamV, int),
    ErrV,
>
    decreases ev.len() - i,
{
    if i < 0 || i >= ev.len() {
        Err(end_err("param"@))
    } else {
        match ev[i] {
            EventV::Text { text } => if text == "*"@ && p.ty_variant == TypeVariantV::Normal {
                parse_param_declarator(ev, i + 1, ParamV { ty_variant: TypeVariantV::MutPtr, ..p })
            } else if text == "*"@ && p.ty_variant == TypeVariantV::ConstPtr {
                parse_param_declarator(ev, i + 1, p)
            } else if text == "**"@ && p.ty_variant == TypeVariantV::Normal {
                parse_param_declarator(
                    ev,
                    i + 1,
                    ParamV { ty_variant: TypeVariantV::MutPtrMutPtr, ..p },
                )
            } else if (text == "* const*"@ || text == "* const *"@) && p.ty_variant
                == TypeVariantV::ConstPtr {
                parse_param_declarator(
                    ev,
                    i + 1,
                    ParamV { ty_variant: TypeVariantV::ConstPtrConstPtr, ..p },
                )
            } else {
                Err(shape_err(text))
            },
            EventV::Start { name, attrs } => if name == "name"@ && attrs.len() == 0 {
                match spec_expect_text(ev, i + 1, "param"@) {
                    Ok(t) => match spec_expect_end(ev, i + 2, "name"@, "param"@) {
                        Ok(j) => if t.len() == 0 {
                            Err(missing_err("name"@, "Param"@))
                        } else {
                            Ok((ParamV { name: t, ..p }, j))
                        },
                        Err(e) => Err(e),
                    },
                    Err(e) => Err(e),
                }
            } else {
                Err(shape_err(name))
            },
            e => Err(shape_err(ev_tag(e))),
        }
    }
}

/// The suffix phase of a parameter: fixed-array markers (valid only on a
/// const pointer) up to the closing tag.
pub open spec fn parse_param_suffix(ev: Seq<EventV>, i: int, p: ParamV) -> Result<
    (ParamV, int),
    ErrV,
>
    decreases ev.len() - i,
{
    if i < 0 || i >= ev.len() {
        Err(end_err("param"@))
    } else {
        match ev[i] {
            EventV::End { name } => if name == "param"@ {
                Ok((p, i + 1))
            } else {
                Err(shape_err(name))
            },
            EventV::Text { text } => if text == "[2]"@ && p.ty_variant == TypeVariantV::ConstPtr {
                parse_param_suffix(
                    ev,
                    i + 1,
                    ParamV { ty_variant: TypeVariantV::ConstPtrArrayInt(2), ..p },
                )
            } else if text == "[3]"@ && p.ty_variant == TypeVariantV::ConstPtr {
                parse_param_suffix(
                    ev,
                    i + 1,
                    ParamV { ty_variant: TypeVariantV::ConstPtrArrayInt(3), ..p },
                )
            } else if text == "[4]"@ && p.ty_variant == TypeVariantV::ConstPtr {
                parse_param_suffix(
                    ev,
                    i + 1,
                    ParamV { ty_variant: TypeVariantV::ConstPtrArrayInt(4), ..p },
                )
            } else {
                Err(shape_err(text))
            },
            e => Err(shape_err(ev_tag(e))),
        }
    }
}

/// One `<param>` element: attributes, then the qualifier, declarator and
/// suffix phases in order.
pub open spec fn spec_parse_param(ev: Seq<EventV>, i: int, attrs: Seq<char>) -> Result<
    (ParamV, int),
    ErrV,
> {
    match param_from_pairs(attrs_of(attrs)) {
        Ok(p0) => match parse_param_qualifier(ev, i, p0) {
            Ok((p1, j)) => match parse_param_declarator(ev, j, p1) {
                Ok((p2, k)) => parse_param_suffix(ev, k, p2),
                Err(e) => Err(e),
            },
            Err(e) => Err(e),
        },
        Err(e) => Err(e),
    }
}

/// The qualifier phase only ever moves the cursor forward.
pub proof fn lemma_param_qualifier_advances(ev: Seq<EventV>, i: int, p: ParamV)
    ensures
        parse_param_qualifier(ev, i, p) matches Ok(q) ==> i < q.1 <= ev.len(),
    decreases ev.len() - i,
{
    if 0 <= i < ev.len() {
        lemma_param_qualifier_advances(ev, i + 1, p);
        lemma_param_qualifier_advances(ev, i + 1, ParamV { ty_variant: TypeVariantV::ConstPtr, ..p });
    }
}

/// The declarator phase only ever moves the cursor forward.
pub proof fn lemma_param_declarator_advances(ev: Seq<EventV>, i: int, p: ParamV)
    ensures
        parse_param_declarator(ev, i, p) matches Ok(q) ==> i < q.1 <= ev.len(),
    decreases ev.len() - i,
{
    if 0 <= i < ev.len() {
        lemma_param_declarator_advances(ev, i + 1, p);
        lemma_param_declarator_advances(ev, i + 1, ParamV { ty_variant: TypeVariantV::MutPtr, ..p });
        lemma_param_declarator_advances(
            ev,
            i + 1,
            ParamV { ty_variant: TypeVariantV::MutPtrMutPtr, ..p },
        );
        lemma_param_declarator_advances(
            ev,
            i + 1,
            ParamV { ty_variant: TypeVariantV::ConstPtrConstPtr, ..p },
        );
    }
}

/// The suffix phase only ever moves the cursor forward.
pub proof fn lemma_param_suffix_advances(ev: Seq<EventV>, i: int, p: ParamV)
    ensures
        parse_param_suffix(ev, i, p) matches Ok(q) ==> i < q.1 <= ev.len(),
    decreases ev.len() - i,
{
    if 0 <= i < ev.len() {
        lemma_param_suffix_advances(
            ev,
            i + 1,
            ParamV { ty_variant: TypeVariantV::ConstPtrArrayInt(2), ..p },
        );
        lemma_param_suffix_advances(
            ev,
            i + 1,
            ParamV { ty_variant: TypeVariantV::ConstPtrArrayInt(3), ..p },
        );
        lemma_param_suffix_advances(
            ev,
            i + 1,
            ParamV { ty_variant: TypeVariantV::ConstPtrArrayInt(4), ..p },
        );
    }
}

/// A whole `<param>` element only ever moves the cursor forward.
pub proof fn lemma_parse_param_advances(ev: Seq<EventV>, i: int, attrs: Seq<char>)
    ensures
        spec_parse_param(ev, i, attrs) matches Ok(q) ==> i < q.1 <= ev.len(),
{
    match param_from_pairs(attrs_of(attrs)) {
        Ok(p0) => {
            lemma_param_qualifier_advances(ev, i, p0);
            match parse_param_qualifier(ev, i, p0) {
                Ok((p1, j)) => {
                    lemma_param_declarator_advances(ev, j, p1);
                    match parse_param_declarator(ev, j, p1) {
                        Ok((p2, k)) => lemma_param_suffix_advances(ev, k, p2),
                        Err(e) => {},
                    }
                },
                Err(e) => {},
            }
        },
        Err(e) => {},
    }
}

/// Consumes one `<param>` element, inferring the parameter's type shape.
#[verifier::loop_isolation(false)]
pub fn do_command_param(attrs: &str, events: &Vec<XmlEvent>, pos: usize) -> (r: Result<
    (Param, usize),
    ParseError,
>)
    ensures
        match r {
            Ok(q) => spec_parse_param(events_view(events@), pos as int, attrs@) == Ok::<
                _,
                ErrV,
            >((q.0@, q.1 as int)),
            Err(e) => spec_parse_param(events_view(events@), pos as int, attrs@) == Err::<
                (ParamV, int),
                ErrV,
            >(e@),
        },
{
    let ghost ev = events_view(events@);
    let mut p = match Param::from_attrs(attrs) {
        Ok(p) => p,
        Err(e) => {
            return Err(e);
        },
    };
    let ghost p0 = p@;
    let mut cur = pos;
    loop
        invariant
            pos <= cur,
            parse_param_qualifier(ev, cur as int, p@) == parse_param_qualifier(ev, pos as int, p0),
        decreases ev.len() - cur,
    {
        if cur >= events.len() {
            return Err(ParseError::UnexpectedElement {
                tag: String::new(),
                context: "param".to_owned(),
            });
        }
        proof {
            assert(ev[cur as int] == events@[cur as int]@);
        }
        match &events[cur] {
            XmlEvent::Text { text } => {
                if str_eq(text.as_str(), "struct") {
                } else if str_eq(text.as_str(), "const") || str_eq(text.as_str(), "const struct") {
                    p.ty_variant = TypeVariant::ConstPtr;
                } else {
                    return Err(ParseError::AmbiguousOrUnrecognizedShape { tokens: text.clone() });
                }
            },
            XmlEvent::Start { name: n, attrs: a } => {
                if str_eq(n.as_str(), "type") && a.as_str().is_empty() {
                    let t = match expect_text(events, cur + 1, "param") {
                        Ok(t) => t,
                        Err(e) => {
                            return Err(e);
                        },
                    };
                    match expect_end(events, cur + 2, "type", "param") {
                        Ok(j) => {
                            p.ty = t;
                            cur = j;
                            break ;
                        },
                        Err(e) => {
                            return Err(e);
                        },
                    }
                } else {
                    return Err(ParseError::AmbiguousOrUnrecognizedShape { tokens: n.clone() });
                }
            },
            e => {
                return Err(ParseError::AmbiguousOrUnrecognizedShape { tokens: exec_ev_tag(e) });
            },
        }
        cur += 1;
    }
    let ghost p1 = p@;
    let ghost qpos = cur;
    loop
        invariant
            parse_param_declarator(ev, cur as int, p@) == parse_param_declarator(
                ev,
                qpos as int,
                p1,
            ),
            parse_param_qualifier(ev, pos as int, p0) == Ok::<_, ErrV>((p1, qpos as int)),
            qpos <= cur,
        decreases ev.len() - cur,
    {
        if cur >= events.len() {
            return Err(ParseError::UnexpectedElement {
                tag: String::new(),
                context: "param".to_owned(),
            });
        }
        proof {
            assert(ev[cur as int] == events@[cur as int]@);
        }
        match &events[cur] {
            XmlEvent::Text { text } => {
                let is_norm = matches!(p.ty_variant, TypeVariant::Normal);
                let is_cp = matches!(p.ty_variant, TypeVariant::ConstPtr);
                if str_eq(text.as_str(), "*") && is_norm {
                    p.ty_variant = TypeVariant::MutPtr;
                } else if str_eq(text.as_str(), "*") && is_cp {
                } else if str_eq(text.as_str(), "**") && is_norm {
                    p.ty_variant = TypeVariant::MutPtrMutPtr;
                } else if (str_eq(text.as_str(), "* const*") || str_eq(text.as_str(), "* const *"))
                    && is_cp {
                    p.ty_variant = TypeVariant::ConstPtrConstPtr;
                } else {
                    return Err(ParseError::AmbiguousOrUnrecognizedShape { tokens: text.clone() });
                }
            },
            XmlEvent::Start { name: n, attrs: a } => {
                if str_eq(n.as_str(), "name") && a.as_str().is_empty() {
                    let t = match expect_text(events, cur + 1, "param") {
                        Ok(t) => t,
                        Err(e) => {
                            return Err(e);
                        },
                    };
                    match expect_end(events, cur + 2, "name", "param") {
                        Ok(j) => {
                            if t.as_str().is_empty() {
                                return Err(ParseError::MissingRequiredAttribute {
                                    name: "name".to_owned(),
                                    record_kind: "Param".to_owned(),
                                });
                            }
                            p.name = t;
                            cur = j;
                            break ;
                        },
                        Err(e) => {
                            return Err(e);
                        },
                    }
                } else {
                    return Err(ParseError::AmbiguousOrUnrecognizedShape { tokens: n.clone() });
                }
            },
            e => {
                return Err(ParseError::AmbiguousOrUnrecognizedShape { tokens: exec_ev_tag(e) });
            },
        }
        cur += 1;
    }
    let ghost p2 = p@;
    let ghost dpos = cur;
    loop
        invariant
            parse_param_suffix(ev, cur as int, p@) == parse_param_suffix(ev, dpos as int, p2),
            parse_param_qualifier(ev, pos as int, p0) == Ok::<_, ErrV>((p1, qpos as int)),
            parse_param_declarator(ev, qpos as int, p1) == Ok::<_, ErrV>((p2, dpos as int)),
            dpos <= cur,
        decreases ev.len() - cur,
    {
        if cur >= events.len() {
            return Err(ParseError::UnexpectedElement {
                tag: String::new(),
                context: "param".to_owned(),
            });
        }
        proof {
            assert(ev[cur as int] == events@[cur as int]@);
        }
        match &events[cur] {
            XmlEvent::End { name: n } => {
                if str_eq(n.as_str(), "param") {
                    return Ok((p, cur + 1));
                } else {
                    return Err(ParseError::AmbiguousOrUnrecognizedShape { tokens: n.clone() });
                }
            },
            XmlEvent::Text { text } => {
                let is_cp = matches!(p.ty_variant, TypeVariant::ConstPtr);
                if str_eq(text.as_str(), "[2]") && is_cp {
                    p.ty_variant = TypeVariant::ConstPtrArrayInt(2);
                } else if str_eq(text.as_str(), "[3]") && is_cp {
                    p.ty_variant = TypeVariant::ConstPtrArrayInt(3);
                } else if str_eq(text.as_str(), "[4]") && is_cp {
                    p.ty_variant = TypeVariant::ConstPtrArrayInt(4);
                } else {
                    return Err(ParseError::AmbiguousOrUnrecognizedShape { tokens: text.clone() });
                }
            },
            e => {
                return Err(ParseError::AmbiguousOrUnrecognizedShape { tokens: exec_ev_tag(e) });
            },
        }
        cur += 1;
    }
}

/// The body of a `<command>` element: the `<proto>` prototype, `<param>`
/// elements, and an optional `<implicitexternsyncparams>` block, through
/// the closing tag; the prototype must have supplied a name by then.
pub open spec fn parse_command_body(ev: Seq<EventV>, i: int, c: CommandV) -> Result<
    (CommandV, int),
    ErrV,
>
    decreases ev.len() - i,
    via parse_command_body_dec
{
    if i < 0 || i >= ev.len() {
        Err(end_err("command"@))
    } else {
        match ev[i] {
            EventV::End { name } => if name == "command"@ {
                if c.name.len() == 0 {
                    Err(missing_err("name"@, "Command"@))
                } else {
                    Ok((c, i + 1))
                }
            } else {
                Err(elem_err(name, "command"@))
            },
            EventV::Start { name, attrs } => if name == "proto"@ && attrs.len() == 0 {
                match spec_expect_text_element(ev, i + 1, "type"@, "command"@) {
                    Ok((rt, j)) => match spec_expect_text_element(ev, j, "name"@, "command"@) {
                        Ok((nm, k)) => match spec_expect_end(ev, k, "proto"@, "command"@) {
                            Ok(l) => parse_command_body(
                                ev,
                                l,
                                CommandV { name: nm, return_ty: rt, ..c },
                            ),
                            Err(e) => Err(e),
                        },
                        Err(e) => Err(e),
                    },
                    Err(e) => Err(e),
                }
            } else if name == "param"@ {
                match spec_parse_param(ev, i + 1, attrs) {
                    Ok((p, j)) => parse_command_body(ev, j, CommandV { params: c.params.push(p), ..c }),
                    Err(e) => Err(e),
                }
            } else if name == "implicitexternsyncparams"@ && attrs.len() == 0 {
                match spec_expect_text_element(ev, i + 1, "param"@, "command"@) {
                    Ok((t, j)) => match spec_expect_end(
                        ev,
                        j,
                        "implicitexternsyncparams"@,
                        "command"@,
                    ) {
                        Ok(k) => parse_command_body(
                            ev,
                            k,
                            CommandV { implicit_extern_sync_params: Some(t), ..c },
                        ),
                        Err(e) => Err(e),
                    },
                    Err(e) => Err(e),
                }
            } else {
                Err(elem_err(name, "command"@))
            },
            e => Err(elem_err(ev_tag(e), "command"@)),
        }
    }
}

#[via_fn]
proof fn parse_command_body_dec(ev: Seq<EventV>, i: int, c: CommandV) {
    if 0 <= i < ev.len() {
        match ev[i] {
            EventV::Start { name, attrs } => {
                if name == "param"@ {
                    lemma_parse_param_advances(ev, i + 1, attrs);
                }
            },
            _ => {},
        }
    }
}

/// A command body only ever moves the cursor forward.
pub proof fn lemma_parse_command_body_advances(ev: Seq<EventV>, i: int, c: CommandV)
    ensures
        parse_command_body(ev, i, c) matches Ok(q) ==> i < q.1 <= ev.len(),
    decreases ev.len() - i,
{
    if 0 <= i < ev.len() {
        match ev[i] {
            EventV::Start { name, attrs } => {
                if name == "proto"@ && attrs.len() == 0 {
                    match spec_expect_text_element(ev, i + 1, "type"@, "command"@) {
                        Ok((rt, j)) => match spec_expect_text_element(ev, j, "name"@, "command"@) {
                            Ok((nm, k)) => match spec_expect_end(ev, k, "proto"@, "command"@) {
                                Ok(l) => lemma_parse_command_body_advances(
                                    ev,
                                    l,
                                    CommandV { name: nm, return_ty: rt, ..c },
                                ),
                                Err(e) => {},
                            },
                            Err(e) => {},
                        },
                        Err(e) => {},
                    }
                } else if name == "param"@ {
                    lemma_parse_param_advances(ev, i + 1, attrs);
                    match spec_parse_param(ev, i + 1, attrs) {
                        Ok((p, j)) => lemma_parse_command_body_advances(
                            ev,
                            j,
                            CommandV { params: c.params.push(p), ..c },
                        ),
                        Err(e) => {},
                    }
                } else if name == "implicitexternsyncparams"@ && attrs.len() == 0 {
                    match spec_expect_text_element(ev, i + 1, "param"@, "command"@) {
                        Ok((t, j)) => match spec_expect_end(
                            ev,
                            j,
                            "implicitexternsyncparams"@,
                            "command"@,
                        ) {
                            Ok(k) => lemma_parse_command_body_advances(
                                ev,
                                k,
                                CommandV { implicit_extern_sync_params: Some(t), ..c },
                            ),
                            Err(e) => {},
                        },
                        Err(e) => {},
                    }
                }
            },
            _ => {},
        }
    }
}

/// Consumes the body of one `<command>` element into `c`.
#[verifier::loop_isolation(false)]
fn do_command_body(c: &mut Command, events: &Vec<XmlEvent>, pos: usize) -> (r: Result<
    usize,
    ParseError,
>)
    ensures
        match r {
            Ok(j) => parse_command_body(events_view(events@), pos as int, old(c)@) == Ok::<
                _,
                ErrV,
            >((final(c)@, j as int)),
            Err(e) => parse_command_body(events_view(events@), pos as int, old(c)@) == Err::<
                (CommandV, int),
                ErrV,
            >(e@),
        },
{
    let ghost ev = events_view(events@);
    let ghost c0 = old(c)@;
    let mut cur = pos;
    loop
        invariant
            pos <= cur,
            parse_command_body(ev, cur as int, c@) == parse_command_body(ev, pos as int, c0),
        decreases ev.len() - cur,
    {
        if cur >= events.len() {
            return Err(ParseError::UnexpectedElement {
                tag: String::new(),
                context: "command".to_owned(),
            });
        }
        proof {
            assert(ev[cur as int] == events@[cur as int]@);
        }
        match &events[cur] {
            XmlEvent::End { name: n } => {
                if str_eq(n.as_str(), "command") {
                    if c.name.as_str().is_empty() {
                        return Err(ParseError::MissingRequiredAttribute {
                            name: "name".to_owned(),
                            record_kind: "Command".to_owned(),
                        });
                    }
                    return Ok(cur + 1);
                } else {
                    return Err(ParseError::UnexpectedElement {
                        tag: n.clone(),
                        context: "command".to_owned(),
                    });
                }
            },
            XmlEvent::Start { name: n, attrs: a } => {
                if str_eq(n.as_str(), "proto") && a.as_str().is_empty() {
                    let (rt, j) = match expect_text_element(events, cur + 1, "type", "command") {
                        Ok(q) => q,
                        Err(e) => {
                            return Err(e);
                        },
                    };
                    let (nm, k) = match expect_text_element(events, j, "name", "command") {
                        Ok(q) => q,
                        Err(e) => {
                            return Err(e);
                        },
                    };
                    match expect_end(events, k, "proto", "command") {
                        Ok(l) => {
                            c.return_ty = rt;
                            c.name = nm;
                            cur = l;
                            continue ;
                        },
                        Err(e) => {
                            return Err(e);
                        },
                    }
                } else if str_eq(n.as_str(), "param") {
                    match do_command_param(a.as_str(), events, cur + 1) {
                        Ok((p, j)) => {
                            proof {
                                lemma_parse_param_advances(ev, cur as int + 1, a@);
                                assert(seq_view(c.params@.push(p)) =~= seq_view(c.params@).push(
                                    p@,
                                ));
                            }
                            c.params.push(p);
                            cur = j;
                            continue ;
                        },
                        Err(e) => {
                            return Err(e);
                        },
                    }
                } else if str_eq(n.as_str(), "implicitexternsyncparams") && a.as_str().is_empty() {
                    let (t, j) = match expect_text_element(events, cur + 1, "param", "command") {
                        Ok(q) => q,
                        Err(e) => {
                            return Err(e);
                        },
                    };
                    match expect_end(events, j, "implicitexternsyncparams", "command") {
                        Ok(k) => {
                            c.implicit_extern_sync_params = Some(t);
                            cur = k;
                            continue ;
                        },
                        Err(e) => {
                            return Err(e);
                        },
                    }
                } else {
                    return Err(ParseError::UnexpectedElement {
                        tag: n.clone(),
                        context: "command".to_owned(),
                    });
                }
            },
            e => {
                return Err(ParseError::UnexpectedElement {
                    tag: exec_ev_tag(e),
                    context: "command".to_owned(),
                });
            },
        }
    }
}

/// The body of the `<commands>` section: started `<command>` elements and
/// empty `<command/>` aliases, through the closing tag.
pub open spec fn parse_commands(
    ev: Seq<EventV>,
    i: int,
    cs: Seq<CommandV>,
    als: Seq<CommandAliasV>,
) -> Result<(Seq<CommandV>, Seq<CommandAliasV>, int), ErrV>
    decreases ev.len() - i,
    via parse_commands_dec
{
    if i < 0 || i >= ev.len() {
        Err(end_err("commands"@))
    } else {
        match ev[i] {
            EventV::End { name } => if name == "commands"@ {
                Ok((cs, als, i + 1))
            } else {
                Err(elem_err(name, "commands"@))
            },
            EventV::Start { name, attrs } => if name == "command"@ {
                match command_from_pairs(attrs_of(attrs)) {
                    Ok(c) => match parse_command_body(ev, i + 1, c) {
                        Ok((c2, j)) => parse_commands(ev, j, cs.push(c2), als),
                        Err(e) => Err(e),
                    },
                    Err(e) => Err(e),
                }
            } else {
                Err(elem_err(name, "commands"@))
            },
            EventV::Empty { name, attrs } => if name == "command"@ {
                match command_alias_from_pairs(attrs_of(attrs)) {
                    Ok(a) => parse_commands(ev, i + 1, cs, als.push(a)),
                    Err(e) => Err(e),
                }
            } else {
                Err(elem_err(name, "commands"@))
            },
            e => Err(elem_err(ev_tag(e), "commands"@)),
        }
    }
}

#[via_fn]
proof fn parse_commands_dec(ev: Seq<EventV>, i: int, cs: Seq<CommandV>, als: Seq<CommandAliasV>) {
    if 0 <= i < ev.len() {
        match ev[i] {
            EventV::Start { name, attrs } => {
                if name == "command"@ {
                    match command_from_pairs(attrs_of(attrs)) {
                        Ok(c) => lemma_parse_command_body_advances(ev, i + 1, c),
                        Err(e) => {},
                    }
                }
            },
            _ => {},
        }
    }
}

/// A `<commands>` section whose opening tag carries `attrs`: the tag may
/// only hold a `comment` attribute, then the body runs to the closing tag.
pub open spec fn spec_do_commands(
    ev: Seq<EventV>,
    i: int,
    attrs: Seq<char>,
    cs: Seq<CommandV>,
    als: Seq<CommandAliasV>,
) -> Result<(Seq<CommandV>, Seq<CommandAliasV>, int), ErrV> {
    match first_err_by(attrs_of(attrs), comment_only_checker("commands"@)) {
        Some(e) => Err(e),
        None => parse_commands(ev, i, cs, als),
    }
}

/// Consumes a `<commands>` section, appending each command and alias in
/// document order.
#[verifier::loop_isolation(false)]
pub fn do_commands(
    commands: &mut Vec<Command>,
    command_aliases: &mut Vec<CommandAlias>,
    attrs: &str,
    events: &Vec<XmlEvent>,
    pos: usize,
) -> (r: Result<usize, ParseError>)
    ensures
        match r {
            Ok(j) => spec_do_commands(
                events_view(events@),
                pos as int,
                attrs@,
                seq_view(old(commands)@),
                seq_view(old(command_aliases)@),
            ) == Ok::<_, ErrV>(
                (seq_view(final(commands)@), seq_view(final(command_aliases)@), j as int),
            ),
            Err(e) => spec_do_commands(
                events_view(events@),
                pos as int,
                attrs@,
                seq_view(old(commands)@),
                seq_view(old(command_aliases)@),
            ) == Err::<(Seq<CommandV>, Seq<CommandAliasV>, int), ErrV>(e@),
        },
{
    if let Some(e) = check_comment_only(attrs, "commands") {
        return Err(e);
    }
    let ghost ev = events_view(events@);
    let ghost cs0 = seq_view(old(commands)@);
    let ghost als0 = seq_view(old(command_aliases)@);
    let mut cur = pos;
    loop
        invariant
            pos <= cur,
            parse_commands(ev, cur as int, seq_view(commands@), seq_view(command_aliases@))
                == parse_commands(ev, pos as int, cs0, als0),
        decreases ev.len() - cur,
    {
        if cur >= events.len() {
            return Err(ParseError::UnexpectedElement {
                tag: String::new(),
                context: "commands".to_owned(),
            });
        }
        proof {
            assert(ev[cur as int] == events@[cur as int]@);
        }
        match &events[cur] {
            XmlEvent::End { name: n } => {
                if str_eq(n.as_str(), "commands") {
                    return Ok(cur + 1);
                } else {
                    return Err(ParseError::UnexpectedElement {
                        tag: n.clone(),
                        context: "commands".to_owned(),
                    });
                }
            },
            XmlEvent::Start { name: n, attrs: a } => {
                if str_eq(n.as_str(), "command") {
                    let mut c = match Command::from_attrs(a.as_str()) {
                        Ok(c) => c,
                        Err(e) => {
                            return Err(e);
                        },
                    };
                    let ghost cv0 = c@;
                    match do_command_body(&mut c, events, cur + 1) {
                        Ok(j) => {
                            proof {
                                lemma_parse_command_body_advances(ev, cur as int + 1, cv0);
                                assert(seq_view(commands@.push(c)) =~= seq_view(commands@).push(
                                    c@,
                                ));
                            }
                            commands.push(c);
                            cur = j;
                            continue ;
                        },
                        Err(e) => {
                            return Err(e);
                        },
                    }
                } else {
                    return Err(ParseError::UnexpectedElement {
                        tag: n.clone(),
                        context: "commands".to_owned(),
                    });
                }
            },
            XmlEvent::Empty { name: n, attrs: a } => {
                if str_eq(n.as_str(), "command") {
                    match CommandAlias::from_attrs(a.as_str()) {
                        Ok(al) => {
                            proof {
                                assert(seq_view(command_aliases@.push(al)) =~= seq_view(
                                    command_aliases@,
                                ).push(al@));
                            }
                            command_aliases.push(al);
                        },
                        Err(e) => {
                            return Err(e);
                        },
                    }
                } else {
                    return Err(ParseError::UnexpectedElement {
                        tag: n.clone(),
                        context: "commands".to_owned(),
                    });
                }
            },
            e => {
                return Err(ParseError::UnexpectedElement {
                    tag: exec_ev_tag(e),
                    context: "commands".to_owned(),
                });
            },
        }
        cur += 1;
    }
}

/// A `<commands>` body only ever moves the cursor forward.
pub proof fn lemma_parse_commands_advances(
    ev: Seq<EventV>,
    i: int,
    cs: Seq<CommandV>,
    als: Seq<CommandAliasV>,
)
    ensures
        parse_commands(ev, i, cs, als) matches Ok(p) ==> i < p.2 <= ev.len(),
    decreases ev.len() - i,
{
    if 0 <= i < ev.len() {
        match ev[i] {
            EventV::Start { name, attrs } => {
                if name == "command"@ {
                    match command_from_pairs(attrs_of(attrs)) {
                        Ok(c) => {
                            lemma_parse_command_body_advances(ev, i + 1, c);
                            match parse_command_body(ev, i + 1, c) {
                                Ok((c2, j)) => lemma_parse_commands_advances(ev, j, cs.push(c2), als),
                                Err(e) => {},
                            }
                        },
                        Err(e) => {},
                    }
                }
            },
            EventV::Empty { name, attrs } => {
                if name == "command"@ {
                    match command_alias_from_pairs(attrs_of(attrs)) {
                        Ok(a) => lemma_parse_commands_advances(ev, i + 1, cs, als.push(a)),
                        Err(e) => {},
                    }
                }
            },
            _ => {},
        }
    }
}

/// A `<commands>` section that closes at once adds nothing to either list.
pub proof fn lemma_commands_empty_section(
    ev: Seq<EventV>,
    i: int,
    cs: Seq<CommandV>,
    als: Seq<CommandAliasV>,
)
    requires
        0 <= i < ev.len(),
        ev[i] == (EventV::End { name: "commands"@ }),
    ensures
        parse_commands(ev, i, cs, als) == Ok::<_, ErrV>((cs, als, i + 1)),
{
}

/// The shape inference run on a parameter's token events alone: the three
/// phases composed, starting from the record built from the attributes.
pub open spec fn param_shape_run(ev: Seq<EventV>, p0: ParamV) -> Result<(ParamV, int), ErrV> {
    match parse_param_qualifier(ev, 0, p0) {
        Ok((p1, j)) => match parse_param_declarator(ev, j, p1) {
            Ok((p2, k)) => parse_param_suffix(ev, k, p2),
            Err(e) => Err(e),
        },
        Err(e) => Err(e),
    }
}

/// A double `*` on a parameter gives a mutable pointer to a mutable
/// pointer, a shape only parameters can take.
pub proof fn lemma_param_shape_mut_ptr_mut_ptr(p0: ParamV, ty: Seq<char>, nm: Seq<char>)
    requires
        p0.ty_variant == TypeVariantV::Normal,
        nm.len() > 0,
    ensures
        param_shape_run(
            seq![
                EventV::Start { name: "type"@, attrs: Seq::empty() },
                EventV::Text { text: ty },
                EventV::End { name: "type"@ },
                EventV::Text { text: "**"@ },
                EventV::Start { name: "name"@, attrs: Seq::empty() },
                EventV::Text { text: nm },
                EventV::End { name: "name"@ },
                EventV::End { name: "param"@ },
            ],
            p0,
        ) == Ok::<(ParamV, int), ErrV>(
            (ParamV { ty, name: nm, ty_variant: TypeVariantV::MutPtrMutPtr, ..p0 }, 8),
        ),
{
    reveal_with_fuel(parse_param_qualifier, 8);
    reveal_with_fuel(parse_param_declarator, 8);
    reveal_with_fuel(parse_param_suffix, 8);
    reveal_strlit("*");
    reveal_strlit("**");
    assert("*"@.len() == 1);
    assert("**"@.len() == 2);
}

/// A bracket suffix on a const-pointer parameter gives a const pointer to
/// a fixed array, a shape only parameters can take.
pub proof fn lemma_param_shape_const_ptr_array(p0: ParamV, ty: Seq<char>, nm: Seq<char>)
    requires
        p0.ty_variant == TypeVariantV::Normal,
        nm.len() > 0,
    ensures
        param_shape_run(
            seq![
                EventV::Text { text: "const"@ },
                EventV::Start { name: "type"@, attrs: Seq::empty() },
                EventV::Text { text: ty },
                EventV::End { name: "type"@ },
                EventV::Text { text: "*"@ },
                EventV::Start { name: "name"@, attrs: Seq::empty() },
                EventV::Text { text: nm },
                EventV::End { name: "name"@ },
                EventV::Text { text: "[2]"@ },
                EventV::End { name: "param"@ },
            ],
            p0,
        ) == Ok::<(ParamV, int), ErrV>(
            (ParamV { ty, name: nm, ty_variant: TypeVariantV::ConstPtrArrayInt(2), ..p0 }, 10),
        ),
{
    reveal_with_fuel(parse_param_qualifier, 8);
    reveal_with_fuel(parse_param_declarator, 8);
    reveal_with_fuel(parse_param_suffix, 8);
    reveal_strlit("struct");
    reveal_strlit("const");
    reveal_strlit("const struct");
    reveal_strlit("*");
    reveal_strlit("**");
    reveal_strlit("* const*");
    reveal_strlit("* const *");
    reveal_strlit("[2]");
    assert("struct"@.len() == 6);
    assert("const"@.len() == 5);
    assert("const struct"@.len() == 12);
    assert("*"@.len() == 1);
    assert("**"@.len() == 2);
    assert("* const*"@.len() == 8);
    assert("* const *"@.len() == 9);
    assert("[2]"@.len() == 3);
}

} // verus!
