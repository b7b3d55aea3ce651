//! The `<formats>` section: pixel and data format descriptions.

use vstd::prelude::*;

use crate::attrs::{
    attrs_of, attrs_view, decode_attrs, first_err_by, keys_distinct, last_val,
    lemma_first_err_by_permutation_none, lemma_last_val_permutation, or_empty, opt_view,
    seq_view, Attr, AttrV,
};
use crate::attrs::{check_comment_only, comment_only_checker};
use crate::errors::{elem_err, end_err, malformed_err, missing_err, res_view, ErrV, ParseError};
use crate::events::{events_view, ev_tag, exec_ev_tag, EventV, XmlEvent};
use crate::utils::{opt_u32, parse_u32, spec_parse_u32, str_eq, u32_or_zero};

verus! {

/// The channel that a format component describes.
#[derive(Debug, Clone, Copy, PartialEq, Eq)]
pub enum FormatComponentName {
    R,
    G,
    B,
    A,
    S,
    D,
}

/// The numeric interpretation of a format component.
#[derive(Debug, Clone, Copy, PartialEq, Eq)]
pub enum NumericFormat {
    SFLOAT,
    SINT,
    SNORM,
    SRGB,
    SSCALED,
    UFLOAT,
    UINT,
    UNORM,
    USCALED,
}

/// The component channel read from a `name` attribute value.
pub open spec fn name_of(o: Option<Seq<char>>) -> FormatComponentName {
    match o {
        Some(v) => if v == "R"@ {
            FormatComponentName::R
        } else if v == "G"@ {
            FormatComponentName::G
        } else if v == "B"@ {
            FormatComponentName::B
        } else if v == "A"@ {
            FormatComponentName::A
        } else if v == "S"@ {
            FormatComponentName::S
        } else if v == "D"@ {
            FormatComponentName::D
        } else {
            FormatComponentName::R
        },
        None => FormatComponentName::R,
    }
}

/// The numeric format read from a `numericFormat` attribute value.
pub open spec fn numeric_format_of(o: Option<Seq<char>>) -> NumericFormat {
    match o {
        Some(v) => if v == "SFLOAT"@ {
            NumericFormat::SFLOAT
        } else if v == "SINT"@ {
            NumericFormat::SINT
        } else if v == "SNORM"@ {
            NumericFormat::SNORM
        } else if v == "SRGB"@ {
            NumericFormat::SRGB
        } else if v == "SSCALED"@ {
            NumericFormat::SSCALED
        } else if v == "UFLOAT"@ {
            NumericFormat::UFLOAT
        } else if v == "UINT"@ {
            NumericFormat::UINT
        } else if v == "UNORM"@ {
            NumericFormat::UNORM
        } else if v == "USCALED"@ {
            NumericFormat::USCALED
        } else {
            NumericFormat::SRGB
        },
        None => NumericFormat::SRGB,
    }
}

/// The chroma subsampling read from a `chroma` attribute value.
pub open spec fn chroma_of(o: Option<Seq<char>>) -> Option<u32> {
    match o {
        Some(v) => if v == "420"@ {
            Some(420u32)
        } else if v == "422"@ {
            Some(422u32)
        } else if v == "444"@ {
            Some(444u32)
        } else {
            Some(0u32)
        },
        None => None,
    }
}

/// A pixel or data format description.
#[derive(Debug, Clone, PartialEq, Eq)]
pub struct Format {
    pub name: String,
    pub class: String,
    pub block_size: u32,
    pub texels_per_block: u32,
    pub packed: u32,
    pub components: Vec<FormatComponent>,
    pub spirv_image_format: Option<String>,
    pub block_extent: Option<String>,
    pub compressed: Option<String>,
    pub chroma: Option<u32>,
    pub planes: Vec<FormatPlane>,
}

/// The mathematical value of a [`Format`].
pub ghost struct FormatV {
    pub name: Seq<char>,
    pub class: Seq<char>,
    pub block_size: u32,
    pub texels_per_block: u32,
    pub packed: u32,
    pub components: Seq<FormatComponentV>,
    pub spirv_image_format: Option<Seq<char>>,
    pub block_extent: Option<Seq<char>>,
    pub compressed: Option<Seq<char>>,
    pub chroma: Option<u32>,
    pub planes: Seq<FormatPlaneV>,
}

impl View for Format {
    type V = FormatV;

    open spec fn view(&self) -> FormatV {
        FormatV {
            name: self.name@,
            class: self.class@,
            block_size: self.block_size,
            texels_per_block: self.texels_per_block,
            packed: self.packed,
            components: seq_view(self.components@),
            spirv_image_format: opt_view(self.spirv_image_format),
            block_extent: opt_view(self.block_extent),
            compressed: opt_view(self.compressed),
            chroma: self.chroma,
            planes: seq_view(self.planes@),
        }
    }
}

pub open spec fn format_pair_err(p: AttrV) -> Option<ErrV> {
    if p.key == "name"@ {
        None
    } else if p.key == "class"@ {
        None
    } else if p.key == "blockSize"@ {
        if spec_parse_u32(p.value) is Some {
                None
            } else {
                Some(malformed_err("blockSize"@, p.value))
            }
    } else if p.key == "texelsPerBlock"@ {
        if spec_parse_u32(p.value) is Some {
                None
            } else {
                Some(malformed_err("texelsPerBlock"@, p.value))
            }
    } else if p.key == "packed"@ {
        if spec_parse_u32(p.value) is Some {
                None
            } else {
                Some(malformed_err("packed"@, p.value))
            }
    } else if p.key == "blockExtent"@ {
        None
    } else if p.key == "compressed"@ {
        None
    } else if p.key == "chroma"@ {
        if p.value == "420"@ || p.value == "422"@ || p.value == "444"@ {
                None
            } else {
                Some(malformed_err("chroma"@, p.value))
            }
    } else {
        Some(ErrV::UnexpectedAttribute { key: p.key, record_kind: "Format"@ })
    }
}

pub open spec fn format_checker() -> spec_fn(AttrV) -> Option<ErrV> {
    |p: AttrV| format_pair_err(p)
}

/// The attribute keys (and checked attribute values) of this record kind
/// are pairwise distinct text.
proof fn format_key_facts()
    ensures
        "name"@ != "class"@,
        "name"@ != "blockSize"@,
        "name"@ != "texelsPerBlock"@,
        "name"@ != "packed"@,
        "name"@ != "blockExtent"@,
        "name"@ != "compressed"@,
        "name"@ != "chroma"@,
        "class"@ != "blockSize"@,
        "class"@ != "texelsPerBlock"@,
        "class"@ != "packed"@,
        "class"@ != "blockExtent"@,
        "class"@ != "compressed"@,
        "class"@ != "chroma"@,
        "blockSize"@ != "texelsPerBlock"@,
        "blockSize"@ != "packed"@,
        "blockSize"@ != "blockExtent"@,
        "blockSize"@ != "compressed"@,
        "blockSize"@ != "chroma"@,
        "texelsPerBlock"@ != "packed"@,
        "texelsPerBlock"@ != "blockExtent"@,
        "texelsPerBlock"@ != "compressed"@,
        "texelsPerBlock"@ != "chroma"@,
        "packed"@ != "blockExtent"@,
        "packed"@ != "compressed"@,
        "packed"@ != "chroma"@,
        "blockExtent"@ != "compressed"@,
        "blockExtent"@ != "chroma"@,
        "compressed"@ != "chroma"@,
        "420"@ != "422"@,
        "420"@ != "444"@,
        "422"@ != "444"@,
{
    reveal_strlit("420");
    reveal_strlit("422");
    reveal_strlit("444");
    reveal_strlit("blockExtent");
    reveal_strlit("blockSize");
    reveal_strlit("chroma");
    reveal_strlit("class");
    reveal_strlit("compressed");
    reveal_strlit("name");
    reveal_strlit("packed");
    reveal_strlit("texelsPerBlock");
    assert("420"@.len() == 3);
    assert("420"@[0] == '4');
    assert("420"@[1] == '2');
    assert("420"@[2] == '0');
    assert("422"@.len() == 3);
    assert("422"@[0] == '4');
    assert("422"@[1] == '2');
    assert("422"@[2] == '2');
    assert("444"@.len() == 3);
    assert("444"@[0] == '4');
    assert("444"@[1] == '4');
    assert("444"@[2] == '4');
    assert("blockExtent"@.len() == 11);
    assert("blockExtent"@[0] == 'b');
    assert("blockExtent"@[1] == 'l');
    assert("blockExtent"@[2] == 'o');
    assert("blockExtent"@[3] == 'c');
    assert("blockExtent"@[4] == 'k');
    assert("blockExtent"@[5] == 'E');
    assert("blockExtent"@[6] == 'x');
    assert("blockExtent"@[7] == 't');
    assert("blockExtent"@[8] == 'e');
    assert("blockExtent"@[9] == 'n');
    assert("blockExtent"@[10] == 't');
    assert("blockSize"@.len() == 9);
    assert("blockSize"@[0] == 'b');
    assert("blockSize"@[1] == 'l');
    assert("blockSize"@[2] == 'o');
    assert("blockSize"@[3] == 'c');
    assert("blockSize"@[4] == 'k');
    assert("blockSize"@[5] == 'S');
    assert("blockSize"@[6] == 'i');
    assert("blockSize"@[7] == 'z');
    assert("blockSize"@[8] == 'e');
    assert("chroma"@.len() == 6);
    assert("chroma"@[0] == 'c');
    assert("chroma"@[1] == 'h');
    assert("chroma"@[2] == 'r');
    assert("chroma"@[3] == 'o');
    assert("chroma"@[4] == 'm');
    assert("chroma"@[5] == 'a');
    assert("class"@.len() == 5);
    assert("class"@[0] == 'c');
    assert("class"@[1] == 'l');
    assert("class"@[2] == 'a');
    assert("class"@[3] == 's');
    assert("class"@[4] == 's');
    assert("compressed"@.len() == 10);
    assert("compressed"@[0] == 'c');
    assert("compressed"@[1] == 'o');
    assert("compressed"@[2] == 'm');
    assert("compressed"@[3] == 'p');
    assert("compressed"@[4] == 'r');
    assert("compressed"@[5] == 'e');
    assert("compressed"@[6] == 's');
    assert("compressed"@[7] == 's');
    assert("compressed"@[8] == 'e');
    assert("compressed"@[9] == 'd');
    assert("name"@.len() == 4);
    assert("name"@[0] == 'n');
    assert("name"@[1] == 'a');
    assert("name"@[2] == 'm');
    assert("name"@[3] == 'e');
    assert("packed"@.len() == 6);
    assert("packed"@[0] == 'p');
    assert("packed"@[1] == 'a');
    assert("packed"@[2] == 'c');
    assert("packed"@[3] == 'k');
    assert("packed"@[4] == 'e');
    assert("packed"@[5] == 'd');
    assert("texelsPerBlock"@.len() == 14);
    assert("texelsPerBlock"@[0] == 't');
    assert("texelsPerBlock"@[1] == 'e');
    assert("texelsPerBlock"@[2] == 'x');
    assert("texelsPerBlock"@[3] == 'e');
    assert("texelsPerBlock"@[4] == 'l');
    assert("texelsPerBlock"@[5] == 's');
    assert("texelsPerBlock"@[6] == 'P');
    assert("texelsPerBlock"@[7] == 'e');
    assert("texelsPerBlock"@[8] == 'r');
    assert("texelsPerBlock"@[9] == 'B');
    assert("texelsPerBlock"@[10] == 'l');
    assert("texelsPerBlock"@[11] == 'o');
    assert("texelsPerBlock"@[12] == 'c');
    assert("texelsPerBlock"@[13] == 'k');
}

/// The record built from decoded pairs: every key must be mapped, and
/// the mandatory fields must be set.
pub open spec fn format_from_pairs(ps: Seq<AttrV>) -> Result<FormatV, ErrV> {
    match first_err_by(ps, format_checker()) {
        Some(e) => Err(e),
        None => if or_empty(last_val(ps, "name"@)).len() == 0 {
            Err(missing_err("name"@, "Format"@))
        } else {
            Ok(
                FormatV {
                    name: or_empty(last_val(ps, "name"@)),
                    class: or_empty(last_val(ps, "class"@)),
                    block_size: u32_or_zero(last_val(ps, "blockSize"@)),
                    texels_per_block: u32_or_zero(last_val(ps, "texelsPerBlock"@)),
                    packed: u32_or_zero(last_val(ps, "packed"@)),
                    components: Seq::empty(),
                    spirv_image_format: None,
                    block_extent: last_val(ps, "blockExtent"@),
                    compressed: last_val(ps, "compressed"@),
                    chroma: chroma_of(last_val(ps, "chroma"@)),
                    planes: Seq::empty(),
                },
            )
        },
    }
}

impl Format {
    /// Builds a `Format` from decoded attribute pairs.
    #[verifier::loop_isolation(false)]
    pub fn from_pairs(pairs: &Vec<Attr>) -> (r: Result<Format, ParseError>)
        ensures
            res_view(r) == format_from_pairs(attrs_view(pairs@)),
    {
        let ghost aps = attrs_view(pairs@);
        let ghost f = format_checker();
        let mut name: Option<String> = None;
        let mut class: String = String::new();
        let mut block_size: u32 = 0;
        let mut texels_per_block: u32 = 0;
        let mut packed: u32 = 0;
        let mut block_extent: Option<String> = None;
        let mut compressed: Option<String> = None;
        let mut chroma: Option<u32> = None;
        let mut idx: usize = 0;
        proof {
            assert(aps.skip(0) =~= aps);
            assert(aps.take(0) =~= Seq::<AttrV>::empty());
        }
        while idx < pairs.len()
            invariant
                idx <= pairs@.len(),
                first_err_by(aps, f) == first_err_by(aps.skip(idx as int), f),
                opt_view(name) == last_val(aps.take(idx as int), "name"@),
                class@ == or_empty(last_val(aps.take(idx as int), "class"@)),
                block_size == u32_or_zero(last_val(aps.take(idx as int), "blockSize"@)),
                texels_per_block == u32_or_zero(last_val(aps.take(idx as int), "texelsPerBlock"@)),
                packed == u32_or_zero(last_val(aps.take(idx as int), "packed"@)),
                opt_view(block_extent) == last_val(aps.take(idx as int), "blockExtent"@),
                opt_view(compressed) == last_val(aps.take(idx as int), "compressed"@),
                chroma == chroma_of(last_val(aps.take(idx as int), "chroma"@)),
            decreases pairs@.len() - idx,
        {
            let ghost p = aps[idx as int];
            proof {
                format_key_facts();
                assert(p == pairs@[idx as int]@);
                assert(aps.skip(idx as int)[0] == p);
                assert(aps.skip(idx as int).drop_first() =~= aps.skip(idx as int + 1));
                assert(aps.take(idx as int + 1).drop_last() =~= aps.take(idx as int));
                assert(aps.take(idx as int + 1).last() == p);
            }
            let a = &pairs[idx];
            if str_eq(a.key.as_str(), "name") {
                name = Some(a.value.clone());
            } else if str_eq(a.key.as_str(), "class") {
                class = a.value.clone();
            } else if str_eq(a.key.as_str(), "blockSize") {
                match parse_u32(a.value.as_str()) {
                    Some(n) => {
                        block_size = n;
                    },
                    None => {
                        return Err(ParseError::MalformedAttributeValue {
                        key: a.key.clone(),
                        raw_value: a.value.clone(),
                    });
                    },
                }
            } else if str_eq(a.key.as_str(), "texelsPerBlock") {
                match parse_u32(a.value.as_str()) {
                    Some(n) => {
                        texels_per_block = n;
                    },
                    None => {
                        return Err(ParseError::MalformedAttributeValue {
                        key: a.key.clone(),
                        raw_value: a.value.clone(),
                    });
                    },
                }
            } else if str_eq(a.key.as_str(), "packed") {
                match parse_u32(a.value.as_str()) {
                    Some(n) => {
                        packed = n;
                    },
                    None => {
                        return Err(ParseError::MalformedAttributeValue {
                        key: a.key.clone(),
                        raw_value: a.value.clone(),
                    });
                    },
                }
            } else if str_eq(a.key.as_str(), "blockExtent") {
                block_extent = Some(a.value.clone());
            } else if str_eq(a.key.as_str(), "compressed") {
                compressed = Some(a.value.clone());
            } else if str_eq(a.key.as_str(), "chroma") {
                if str_eq(a.value.as_str(), "420") {
                    chroma = Some(420);
                } else if str_eq(a.value.as_str(), "422") {
                    chroma = Some(422);
                } else if str_eq(a.value.as_str(), "444") {
                    chroma = Some(444);
                } else {
                    return Err(ParseError::MalformedAttributeValue {
                        key: a.key.clone(),
                        raw_value: a.value.clone(),
                    });
                }
            } else {
                return Err(ParseError::UnexpectedAttribute {
                    key: a.key.clone(),
                    record_kind: "Format".to_owned(),
                });
            }
            idx += 1;
        }
        proof {
            assert(aps.skip(pairs@.len() as int) =~= Seq::<AttrV>::empty());
            assert(aps.take(pairs@.len() as int) =~= aps);
        }
        let name = match name {
            Some(v) => v,
            None => {
                return Err(ParseError::MissingRequiredAttribute {
                    name: "name".to_owned(),
                    record_kind: "Format".to_owned(),
                });
            },
        };
        if name.as_str().is_empty() {
            return Err(ParseError::MissingRequiredAttribute {
                name: "name".to_owned(),
                record_kind: "Format".to_owned(),
            });
        }
        proof {
            assert(seq_view(Seq::<FormatComponent>::empty()) =~= Seq::<FormatComponentV>::empty());
            assert(seq_view(Seq::<FormatPlane>::empty()) =~= Seq::<FormatPlaneV>::empty());
        }
        Ok(Format {
            name,
            class,
            block_size,
            texels_per_block,
            packed,
            components: Vec::new(),
            spirv_image_format: None,
            block_extent,
            compressed,
            chroma,
            planes: Vec::new(),
        })
    }

    /// Builds a `Format` from a tag's raw attribute text.
    pub fn from_attrs(attrs: &str) -> (r: Result<Format, ParseError>)
        ensures
            res_view(r) == format_from_pairs(attrs_of(attrs@)),
    {
        let pairs = decode_attrs(attrs);
        Format::from_pairs(&pairs)
    }
}

/// Permuting the tag's attribute pairs never changes the
/// record built, as long as the pair list is valid: keys all distinct and
/// the record accepted.
pub proof fn lemma_format_attr_order(ps1: Seq<AttrV>, ps2: Seq<AttrV>)
    requires
        keys_distinct(ps1),
        ps1.to_multiset() == ps2.to_multiset(),
        format_from_pairs(ps1) is Ok,
    ensures
        format_from_pairs(ps2) == format_from_pairs(ps1),
{
    lemma_first_err_by_permutation_none(ps1, ps2, format_checker());
    lemma_last_val_permutation(ps1, ps2, "name"@);
    lemma_last_val_permutation(ps1, ps2, "class"@);
    lemma_last_val_permutation(ps1, ps2, "blockSize"@);
    lemma_last_val_permutation(ps1, ps2, "texelsPerBlock"@);
    lemma_last_val_permutation(ps1, ps2, "packed"@);
    lemma_last_val_permutation(ps1, ps2, "blockExtent"@);
    lemma_last_val_permutation(ps1, ps2, "compressed"@);
    lemma_last_val_permutation(ps1, ps2, "chroma"@);
}

/// One component of a format; `bits` is either `"compressed"` or a number.
#[derive(Debug, Clone, PartialEq, Eq)]
pub struct FormatComponent {
    pub name: FormatComponentName,
    pub bits: String,
    pub numeric_format: NumericFormat,
    pub plane_index: Option<u32>,
}

/// The mathematical value of a [`FormatComponent`].
pub ghost struct FormatComponentV {
    pub name: FormatComponentName,
    pub bits: Seq<char>,
    pub numeric_format: NumericFormat,
    pub plane_index: Option<u32>,
}

impl View for FormatComponent {
    type V = FormatComponentV;

    open spec fn view(&self) -> FormatComponentV {
        FormatComponentV {
            name: self.name,
            bits: self.bits@,
            numeric_format: self.numeric_format,
            plane_index: self.plane_index,
        }
    }
}

pub open spec fn format_component_pair_err(p: AttrV) -> Option<ErrV> {
    if p.key == "name"@ {
        if p.value == "R"@ || p.value == "G"@ || p.value == "B"@ || p.value == "A"@ || p.value == "S"@ || p.value == "D"@ {
                None
            } else {
                Some(malformed_err("name"@, p.value))
            }
    } else if p.key == "bits"@ {
        None
    } else if p.key == "numericFormat"@ {
        if p.value == "SFLOAT"@ || p.value == "SINT"@ || p.value == "SNORM"@ || p.value == "SRGB"@ || p.value == "SSCALED"@ || p.value == "UFLOAT"@ || p.value == "UINT"@ || p.value == "UNORM"@ || p.value == "USCALED"@ {
                None
            } else {
                Some(malformed_err("numericFormat"@, p.value))
            }
    } else if p.key == "planeIndex"@ {
        if spec_parse_u32(p.value) is Some {
                None
            } else {
                Some(malformed_err("planeIndex"@, p.value))
            }
    } else {
        Some(ErrV::UnexpectedAttribute { key: p.key, record_kind: "FormatComponent"@ })
    }
}

pub open spec fn format_component_checker() -> spec_fn(AttrV) -> Option<ErrV> {
    |p: AttrV| format_component_pair_err(p)
}

/// The attribute keys (and checked attribute values) of this record kind
/// are pairwise distinct text.
proof fn format_component_key_facts()
    ensures
        "name"@ != "bits"@,
        "name"@ != "numericFormat"@,
        "name"@ != "planeIndex"@,
        "bits"@ != "numericFormat"@,
        "bits"@ != "planeIndex"@,
        "numericFormat"@ != "planeIndex"@,
        "R"@ != "G"@,
        "R"@ != "B"@,
        "R"@ != "A"@,
        "R"@ != "S"@,
        "R"@ != "D"@,
        "G"@ != "B"@,
        "G"@ != "A"@,
        "G"@ != "S"@,
        "G"@ != "D"@,
        "B"@ != "A"@,
        "B"@ != "S"@,
        "B"@ != "D"@,
        "A"@ != "S"@,
        "A"@ != "D"@,
        "S"@ != "D"@,
        "SFLOAT"@ != "SINT"@,
        "SFLOAT"@ != "SNORM"@,
        "SFLOAT"@ != "SRGB"@,
        "SFLOAT"@ != "SSCALED"@,
        "SFLOAT"@ != "UFLOAT"@,
        "SFLOAT"@ != "UINT"@,
        "SFLOAT"@ != "UNORM"@,
        "SFLOAT"@ != "USCALED"@,
        "SINT"@ != "SNORM"@,
        "SINT"@ != "SRGB"@,
        "SINT"@ != "SSCALED"@,
        "SINT"@ != "UFLOAT"@,
        "SINT"@ != "UINT"@,
        "SINT"@ != "UNORM"@,
        "SINT"@ != "USCALED"@,
        "SNORM"@ != "SRGB"@,
        "SNORM"@ != "SSCALED"@,
        "SNORM"@ != "UFLOAT"@,
        "SNORM"@ != "UINT"@,
        "SNORM"@ != "UNORM"@,
        "SNORM"@ != "USCALED"@,
        "SRGB"@ != "SSCALED"@,
        "SRGB"@ != "UFLOAT"@,
        "SRGB"@ != "UINT"@,
        "SRGB"@ != "UNORM"@,
        "SRGB"@ != "USCALED"@,
        "SSCALED"@ != "UFLOAT"@,
        "SSCALED"@ != "UINT"@,
        "SSCALED"@ != "UNORM"@,
        "SSCALED"@ != "USCALED"@,
        "UFLOAT"@ != "UINT"@,
        "UFLOAT"@ != "UNORM"@,
        "UFLOAT"@ != "USCALED"@,
        "UINT"@ != "UNORM"@,
        "UINT"@ != "USCALED"@,
        "UNORM"@ != "USCALED"@,
{
    reveal_strlit("A");
    reveal_strlit("B");
    reveal_strlit("D");
    reveal_strlit("G");
    reveal_strlit("R");
    reveal_strlit("S");
    reveal_strlit("SFLOAT");
    reveal_strlit("SINT");
    reveal_strlit("SNORM");
    reveal_strlit("SRGB");
    reveal_strlit("SSCALED");
    reveal_strlit("UFLOAT");
    reveal_strlit("UINT");
    reveal_strlit("UNORM");
    reveal_strlit("USCALED");
    reveal_strlit("bits");
    reveal_strlit("name");
    reveal_strlit("numericFormat");
    reveal_strlit("planeIndex");
    assert("A"@.len() == 1);
    assert("A"@[0] == 'A');
    assert("B"@.len() == 1);
    assert("B"@[0] == 'B');
    assert("D"@.len() == 1);
    assert("D"@[0] == 'D');
    assert("G"@.len() == 1);
    assert("G"@[0] == 'G');
    assert("R"@.len() == 1);
    assert("R"@[0] == 'R');
    assert("S"@.len() == 1);
    assert("S"@[0] == 'S');
    assert("SFLOAT"@.len() == 6);
    assert("SFLOAT"@[0] == 'S');
    assert("SFLOAT"@[1] == 'F');
    assert("SFLOAT"@[2] == 'L');
    assert("SFLOAT"@[3] == 'O');
    assert("SFLOAT"@[4] == 'A');
    assert("SFLOAT"@[5] == 'T');
    assert("SINT"@.len() == 4);
    assert("SINT"@[0] == 'S');
    assert("SINT"@[1] == 'I');
    assert("SINT"@[2] == 'N');
    assert("SINT"@[3] == 'T');
    assert("SNORM"@.len() == 5);
    assert("SNORM"@[0] == 'S');
    assert("SNORM"@[1] == 'N');
    assert("SNORM"@[2] == 'O');
    assert("SNORM"@[3] == 'R');
    assert("SNORM"@[4] == 'M');
    assert("SRGB"@.len() == 4);
    assert("SRGB"@[0] == 'S');
    assert("SRGB"@[1] == 'R');
    assert("SRGB"@[2] == 'G');
    assert("SRGB"@[3] == 'B');
    assert("SSCALED"@.len() == 7);
    assert("SSCALED"@[0] == 'S');
    assert("SSCALED"@[1] == 'S');
    assert("SSCALED"@[2] == 'C');
    assert("SSCALED"@[3] == 'A');
    assert("SSCALED"@[4] == 'L');
    assert("SSCALED"@[5] == 'E');
    assert("SSCALED"@[6] == 'D');
    assert("UFLOAT"@.len() == 6);
    assert("UFLOAT"@[0] == 'U');
    assert("UFLOAT"@[1] == 'F');
    assert("UFLOAT"@[2] == 'L');
    assert("UFLOAT"@[3] == 'O');
    assert("UFLOAT"@[4] == 'A');
    assert("UFLOAT"@[5] == 'T');
    assert("UINT"@.len() == 4);
    assert("UINT"@[0] == 'U');
    assert("UINT"@[1] == 'I');
    assert("UINT"@[2] == 'N');
    assert("UINT"@[3] == 'T');
    assert("UNORM"@.len() == 5);
    assert("UNORM"@[0] == 'U');
    assert("UNORM"@[1] == 'N');
    assert("UNORM"@[2] == 'O');
    assert("UNORM"@[3] == 'R');
    assert("UNORM"@[4] == 'M');
    assert("USCALED"@.len() == 7);
    assert("USCALED"@[0] == 'U');
    assert("USCALED"@[1] == 'S');
    assert("USCALED"@[2] == 'C');
    assert("USCALED"@[3] == 'A');
    assert("USCALED"@[4] == 'L');
    assert("USCALED"@[5] == 'E');
    assert("USCALED"@[6] == 'D');
    assert("bits"@.len() == 4);
    assert("bits"@[0] == 'b');
    assert("bits"@[1] == 'i');
    assert("bits"@[2] == 't');
    assert("bits"@[3] == 's');
    assert("name"@.len() == 4);
    assert("name"@[0] == 'n');
    assert("name"@[1] == 'a');
    assert("name"@[2] == 'm');
    assert("name"@[3] == 'e');
    assert("numericFormat"@.len() == 13);
    assert("numericFormat"@[0] == 'n');
    assert("numericFormat"@[1] == 'u');
    assert("numericFormat"@[2] == 'm');
    assert("numericFormat"@[3] == 'e');
    assert("numericFormat"@[4] == 'r');
    assert("numericFormat"@[5] == 'i');
    assert("numericFormat"@[6] == 'c');
    assert("numericFormat"@[7] == 'F');
    assert("numericFormat"@[8] == 'o');
    assert("numericFormat"@[9] == 'r');
    assert("numericFormat"@[10] == 'm');
    assert("numericFormat"@[11] == 'a');
    assert("numericFormat"@[12] == 't');
    assert("planeIndex"@.len() == 10);
    assert("planeIndex"@[0] == 'p');
    assert("planeIndex"@[1] == 'l');
    assert("planeIndex"@[2] == 'a');
    assert("planeIndex"@[3] == 'n');
    assert("planeIndex"@[4] == 'e');
    assert("planeIndex"@[5] == 'I');
    assert("planeIndex"@[6] == 'n');
    assert("planeIndex"@[7] == 'd');
    assert("planeIndex"@[8] == 'e');
    assert("planeIndex"@[9] == 'x');
}

/// The record built from decoded pairs: every key must be mapped, and
/// the mandatory fields must be set.
pub open spec fn format_component_from_pairs(ps: Seq<AttrV>) -> Result<FormatComponentV, ErrV> {
    match first_err_by(ps, format_component_checker()) {
        Some(e) => Err(e),
        None => Ok(
            FormatComponentV {
                name: name_of(last_val(ps, "name"@)),
                bits: or_empty(last_val(ps, "bits"@)),
                numeric_format: numeric_format_of(last_val(ps, "numericFormat"@)),
                plane_index: opt_u32(last_val(ps, "planeIndex"@)),
            },
        ),
    }
}

impl FormatComponent {
    /// Builds a `FormatComponent` from decoded attribute pairs.
    #[verifier::loop_isolation(false)]
    pub fn from_pairs(pairs: &Vec<Attr>) -> (r: Result<FormatComponent, ParseError>)
        ensures
            res_view(r) == format_component_from_pairs(attrs_view(pairs@)),
    {
        let ghost aps = attrs_view(pairs@);
        let ghost f = format_component_checker();
        let mut name: FormatComponentName = FormatComponentName::R;
        let mut bits: String = String::new();
        let mut numeric_format: NumericFormat = NumericFormat::SRGB;
        let mut plane_index: Option<u32> = None;
        let mut idx: usize = 0;
        proof {
            assert(aps.skip(0) =~= aps);
            assert(aps.take(0) =~= Seq::<AttrV>::empty());
        }
        while idx < pairs.len()
            invariant
                idx <= pairs@.len(),
                first_err_by(aps, f) == first_err_by(aps.skip(idx as int), f),
                name == name_of(last_val(aps.take(idx as int), "name"@)),
                bits@ == or_empty(last_val(aps.take(idx as int), "bits"@)),
                numeric_format == numeric_format_of(last_val(aps.take(idx as int), "numericFormat"@)),
                plane_index == opt_u32(last_val(aps.take(idx as int), "planeIndex"@)),
            decreases pairs@.len() - idx,
        {
            let ghost p = aps[idx as int];
            proof {
                format_component_key_facts();
                assert(p == pairs@[idx as int]@);
                assert(aps.skip(idx as int)[0] == p);
                assert(aps.skip(idx as int).drop_first() =~= aps.skip(idx as int + 1));
                assert(aps.take(idx as int + 1).drop_last() =~= aps.take(idx as int));
                assert(aps.take(idx as int + 1).last() == p);
            }
            let a = &pairs[idx];
            if str_eq(a.key.as_str(), "name") {
                if str_eq(a.value.as_str(), "R") {
                    name = FormatComponentName::R;
                } else if str_eq(a.value.as_str(), "G") {
                    name = FormatComponentName::G;
                } else if str_eq(a.value.as_str(), "B") {
                    name = FormatComponentName::B;
                } else if str_eq(a.value.as_str(), "A") {
                    name = FormatComponentName::A;
                } else if str_eq(a.value.as_str(), "S") {
                    name = FormatComponentName::S;
                } else if str_eq(a.value.as_str(), "D") {
                    name = FormatComponentName::D;
                } else {
                    return Err(ParseError::MalformedAttributeValue {
                        key: a.key.clone(),
                        raw_value: a.value.clone(),
                    });
                }
            } else if str_eq(a.key.as_str(), "bits") {
                bits = a.value.clone();
            } else if str_eq(a.key.as_str(), "numericFormat") {
                if str_eq(a.value.as_str(), "SFLOAT") {
                    numeric_format = NumericFormat::SFLOAT;
                } else if str_eq(a.value.as_str(), "SINT") {
                    numeric_format = NumericFormat::SINT;
                } else if str_eq(a.value.as_str(), "SNORM") {
                    numeric_format = NumericFormat::SNORM;
                } else if str_eq(a.value.as_str(), "SRGB") {
                    numeric_format = NumericFormat::SRGB;
                } else if str_eq(a.value.as_str(), "SSCALED") {
                    numeric_format = NumericFormat::SSCALED;
                } else if str_eq(a.value.as_str(), "UFLOAT") {
                    numeric_format = NumericFormat::UFLOAT;
                } else if str_eq(a.value.as_str(), "UINT") {
                    numeric_format = NumericFormat::UINT;
                } else if str_eq(a.value.as_str(), "UNORM") {
                    numeric_format = NumericFormat::UNORM;
                } else if str_eq(a.value.as_str(), "USCALED") {
                    numeric_format = NumericFormat::USCALED;
                } else {
                    return Err(ParseError::MalformedAttributeValue {
                        key: a.key.clone(),
                        raw_value: a.value.clone(),
                    });
                }
            } else if str_eq(a.key.as_str(), "planeIndex") {
                match parse_u32(a.value.as_str()) {
                    Some(n) => {
                        plane_index = Some(n);
                    },
                    None => {
                        return Err(ParseError::MalformedAttributeValue {
                        key: a.key.clone(),
                        raw_value: a.value.clone(),
                    });
                    },
                }
            } else {
                return Err(ParseError::UnexpectedAttribute {
                    key: a.key.clone(),
                    record_kind: "FormatComponent".to_owned(),
                });
            }
            idx += 1;
        }
        proof {
            assert(aps.skip(pairs@.len() as int) =~= Seq::<AttrV>::empty());
            assert(aps.take(pairs@.len() as int) =~= aps);
        }
        Ok(FormatComponent {
            name,
            bits,
            numeric_format,
            plane_index,
        })
    }

    /// Builds a `FormatComponent` from a tag's raw attribute text.
    pub fn from_attrs(attrs: &str) -> (r: Result<FormatComponent, ParseError>)
        ensures
            res_view(r) == format_component_from_pairs(attrs_of(attrs@)),
    {
        let pairs = decode_attrs(attrs);
        FormatComponent::from_pairs(&pairs)
    }
}

/// Permuting the tag's attribute pairs never changes the
/// record built, as long as the pair list is valid: keys all distinct and
/// the record accepted.
pub proof fn lemma_format_component_attr_order(ps1: Seq<AttrV>, ps2: Seq<AttrV>)
    requires
        keys_distinct(ps1),
        ps1.to_multiset() == ps2.to_multiset(),
        format_component_from_pairs(ps1) is Ok,
    ensures
        format_component_from_pairs(ps2) == format_component_from_pairs(ps1),
{
    lemma_first_err_by_permutation_none(ps1, ps2, format_component_checker());
    lemma_last_val_permutation(ps1, ps2, "name"@);
    lemma_last_val_permutation(ps1, ps2, "bits"@);
    lemma_last_val_permutation(ps1, ps2, "numericFormat"@);
    lemma_last_val_permutation(ps1, ps2, "planeIndex"@);
}

/// One plane of a multi-planar format.
#[derive(Debug, Clone, PartialEq, Eq)]
pub struct FormatPlane {
    pub name: String,
    pub index: u32,
    pub width_divisor: u32,
    pub height_divisor: u32,
    pub compatible: String,
}

/// The mathematical value of a [`FormatPlane`].
pub ghost struct FormatPlaneV {
    pub name: Seq<char>,
    pub index: u32,
    pub width_divisor: u32,
    pub height_divisor: u32,
    pub compatible: Seq<char>,
}

impl View for FormatPlane {
    type V = FormatPlaneV;

    open spec fn view(&self) -> FormatPlaneV {
        FormatPlaneV {
            name: self.name@,
            index: self.index,
            width_divisor: self.width_divisor,
            height_divisor: self.height_divisor,
            compatible: self.compatible@,
        }
    }
}

pub open spec fn format_plane_pair_err(p: AttrV) -> Option<ErrV> {
    if p.key == "name"@ {
        None
    } else if p.key == "index"@ {
        if spec_parse_u32(p.value) is Some {
                None
            } else {
                Some(malformed_err("index"@, p.value))
            }
    } else if p.key == "widthDivisor"@ {
        if spec_parse_u32(p.value) is Some {
                None
            } else {
                Some(malformed_err("widthDivisor"@, p.value))
            }
    } else if p.key == "heightDivisor"@ {
        if spec_parse_u32(p.value) is Some {
                None
            } else {
                Some(malformed_err("heightDivisor"@, p.value))
            }
    } else if p.key == "compatible"@ {
        None
    } else {
        Some(ErrV::UnexpectedAttribute { key: p.key, record_kind: "FormatPlane"@ })
    }
}

pub open spec fn format_plane_checker() -> spec_fn(AttrV) -> Option<ErrV> {
    |p: AttrV| format_plane_pair_err(p)
}

/// The attribute keys (and checked attribute values) of this record kind
/// are pairwise distinct text.
proof fn format_plane_key_facts()
    ensures
        "name"@ != "index"@,
        "name"@ != "widthDivisor"@,
        "name"@ != "heightDivisor"@,
        "name"@ != "compatible"@,
        "index"@ != "widthDivisor"@,
        "index"@ != "heightDivisor"@,
        "index"@ != "compatible"@,
        "widthDivisor"@ != "heightDivisor"@,
        "widthDivisor"@ != "compatible"@,
        "heightDivisor"@ != "compatible"@,
{
    reveal_strlit("compatible");
    reveal_strlit("heightDivisor");
    reveal_strlit("index");
    reveal_strlit("name");
    reveal_strlit("widthDivisor");
    assert("compatible"@.len() == 10);
    assert("compatible"@[0] == 'c');
    assert("compatible"@[1] == 'o');
    assert("compatible"@[2] == 'm');
    assert("compatible"@[3] == 'p');
    assert("compatible"@[4] == 'a');
    assert("compatible"@[5] == 't');
    assert("compatible"@[6] == 'i');
    assert("compatible"@[7] == 'b');
    assert("compatible"@[8] == 'l');
    assert("compatible"@[9] == 'e');
    assert("heightDivisor"@.len() == 13);
    assert("heightDivisor"@[0] == 'h');
    assert("heightDivisor"@[1] == 'e');
    assert("heightDivisor"@[2] == 'i');
    assert("heightDivisor"@[3] == 'g');
    assert("heightDivisor"@[4] == 'h');
    assert("heightDivisor"@[5] == 't');
    assert("heightDivisor"@[6] == 'D');
    assert("heightDivisor"@[7] == 'i');
    assert("heightDivisor"@[8] == 'v');
    assert("heightDivisor"@[9] == 'i');
    assert("heightDivisor"@[10] == 's');
    assert("heightDivisor"@[11] == 'o');
    assert("heightDivisor"@[12] == 'r');
    assert("index"@.len() == 5);
    assert("index"@[0] == 'i');
    assert("index"@[1] == 'n');
    assert("index"@[2] == 'd');
    assert("index"@[3] == 'e');
    assert("index"@[4] == 'x');
    assert("name"@.len() == 4);
    assert("name"@[0] == 'n');
    assert("name"@[1] == 'a');
    assert("name"@[2] == 'm');
    assert("name"@[3] == 'e');
    assert("widthDivisor"@.len() == 12);
    assert("widthDivisor"@[0] == 'w');
    assert("widthDivisor"@[1] == 'i');
    assert("widthDivisor"@[2] == 'd');
    assert("widthDivisor"@[3] == 't');
    assert("widthDivisor"@[4] == 'h');
    assert("widthDivisor"@[5] == 'D');
    assert("widthDivisor"@[6] == 'i');
    assert("widthDivisor"@[7] == 'v');
    assert("widthDivisor"@[8] == 'i');
    assert("widthDivisor"@[9] == 's');
    assert("widthDivisor"@[10] == 'o');
    assert("widthDivisor"@[11] == 'r');
}

/// The record built from decoded pairs: every key must be mapped, and
/// the mandatory fields must be set.
pub open spec fn format_plane_from_pairs(ps: Seq<AttrV>) -> Result<FormatPlaneV, ErrV> {
    match first_err_by(ps, format_plane_checker()) {
        Some(e) => Err(e),
        None => Ok(
            FormatPlaneV {
                name: or_empty(last_val(ps, "name"@)),
                index: u32_or_zero(last_val(ps, "index"@)),
                width_divisor: u32_or_zero(last_val(ps, "widthDivisor"@)),
                height_divisor: u32_or_zero(last_val(ps, "heightDivisor"@)),
                compatible: or_empty(last_val(ps, "compatible"@)),
            },
        ),
    }
}

impl FormatPlane {
    /// Builds a `FormatPlane` from decoded attribute pairs.
    #[verifier::loop_isolation(false)]
    pub fn from_pairs(pairs: &Vec<Attr>) -> (r: Result<FormatPlane, ParseError>)
        ensures
            res_view(r) == format_plane_from_pairs(attrs_view(pairs@)),
    {
        let ghost aps = attrs_view(pairs@);
        let ghost f = format_plane_checker();
        let mut name: String = String::new();
        let mut index: u32 = 0;
        let mut width_divisor: u32 = 0;
        let mut height_divisor: u32 = 0;
        let mut compatible: String = String::new();
        let mut idx: usize = 0;
        proof {
            assert(aps.skip(0) =~= aps);
            assert(aps.take(0) =~= Seq::<AttrV>::empty());
        }
        while idx < pairs.len()
            invariant
                idx <= pairs@.len(),
                first_err_by(aps, f) == first_err_by(aps.skip(idx as int), f),
                name@ == or_empty(last_val(aps.take(idx as int), "name"@)),
                index == u32_or_zero(last_val(aps.take(idx as int), "index"@)),
                width_divisor == u32_or_zero(last_val(aps.take(idx as int), "widthDivisor"@)),
                height_divisor == u32_or_zero(last_val(aps.take(idx as int), "heightDivisor"@)),
                compatible@ == or_empty(last_val(aps.take(idx as int), "compatible"@)),
            decreases pairs@.len() - idx,
        {
            let ghost p = aps[idx as int];
            proof {
                format_plane_key_facts();
                assert(p == pairs@[idx as int]@);
                assert(aps.skip(idx as int)[0] == p);
                assert(aps.skip(idx as int).drop_first() =~= aps.skip(idx as int + 1));
                assert(aps.take(idx as int + 1).drop_last() =~= aps.take(idx as int));
                assert(aps.take(idx as int + 1).last() == p);
            }
            let a = &pairs[idx];
            if str_eq(a.key.as_str(), "name") {
                name = a.value.clone();
            } else if str_eq(a.key.as_str(), "index") {
                match parse_u32(a.value.as_str()) {
                    Some(n) => {
                        index = n;
                    },
                    None => {
                        return Err(ParseError::MalformedAttributeValue {
                        key: a.key.clone(),
                        raw_value: a.value.clone(),
                    });
                    },
                }
            } else if str_eq(a.key.as_str(), "widthDivisor") {
                match parse_u32(a.value.as_str()) {
                    Some(n) => {
                        width_divisor = n;
                    },
                    None => {
                        return Err(ParseError::MalformedAttributeValue {
                        key: a.key.clone(),
                        raw_value: a.value.clone(),
                    });
                    },
                }
            } else if str_eq(a.key.as_str(), "heightDivisor") {
                match parse_u32(a.value.as_str()) {
                    Some(n) => {
                        height_divisor = n;
                    },
                    None => {
                        return Err(ParseError::MalformedAttributeValue {
                        key: a.key.clone(),
                        raw_value: a.value.clone(),
                    });
                    },
                }
            } else if str_eq(a.key.as_str(), "compatible") {
                compatible = a.value.clone();
            } else {
                return Err(ParseError::UnexpectedAttribute {
                    key: a.key.clone(),
                    record_kind: "FormatPlane".to_owned(),
                });
            }
            idx += 1;
        }
        proof {
            assert(aps.skip(pairs@.len() as int) =~= Seq::<AttrV>::empty());
            assert(aps.take(pairs@.len() as int) =~= aps);
        }
        Ok(FormatPlane {
            name,
            index,
            width_divisor,
            height_divisor,
            compatible,
        })
    }

    /// Builds a `FormatPlane` from a tag's raw attribute text.
    pub fn from_attrs(attrs: &str) -> (r: Result<FormatPlane, ParseError>)
        ensures
            res_view(r) == format_plane_from_pairs(attrs_of(attrs@)),
    {
        let pairs = decode_attrs(attrs);
        FormatPlane::from_pairs(&pairs)
    }
}

/// Permuting the tag's attribute pairs never changes the
/// record built, as long as the pair list is valid: keys all distinct and
/// the record accepted.
pub proof fn lemma_format_plane_attr_order(ps1: Seq<AttrV>, ps2: Seq<AttrV>)
    requires
        keys_distinct(ps1),
        ps1.to_multiset() == ps2.to_multiset(),
        format_plane_from_pairs(ps1) is Ok,
    ensures
        format_plane_from_pairs(ps2) == format_plane_from_pairs(ps1),
{
    lemma_first_err_by_permutation_none(ps1, ps2, format_plane_checker());
    lemma_last_val_permutation(ps1, ps2, "name"@);
    lemma_last_val_permutation(ps1, ps2, "index"@);
    lemma_last_val_permutation(ps1, ps2, "widthDivisor"@);
    lemma_last_val_permutation(ps1, ps2, "heightDivisor"@);
    lemma_last_val_permutation(ps1, ps2, "compatible"@);
}

/// One `<spirvimageformat/>` tag inside a format: it must carry exactly a
/// `name` attribute, whose value names the SPIR-V image format.
pub open spec fn spec_spirv_image_format_name(attrs: Seq<char>) -> Result<Seq<char>, ErrV> {
    let aps = attrs_of(attrs);
    if aps.len() == 0 {
        Err(missing_err("name"@, "spirvimageformat"@))
    } else if aps[0].key != "name"@ {
        Err(ErrV::UnexpectedAttribute { key: aps[0].key, record_kind: "spirvimageformat"@ })
    } else if aps.len() != 1 {
        Err(ErrV::UnexpectedAttribute { key: aps[1].key, record_kind: "spirvimageformat"@ })
    } else {
        Ok(aps[0].value)
    }
}

/// Reads the lone `name` attribute of a `<spirvimageformat/>` tag.
fn spirv_image_format_name(attrs: &str) -> (r: Result<String, ParseError>)
    ensures
        match r {
            Ok(n) => spec_spirv_image_format_name(attrs@) == Ok::<Seq<char>, ErrV>(n@),
            Err(e) => spec_spirv_image_format_name(attrs@) == Err::<Seq<char>, ErrV>(e@),
        },
{
    let pairs = decode_attrs(attrs);
    proof {
        if pairs@.len() > 0 {
            assert(attrs_view(pairs@)[0] == pairs@[0 as int]@);
        }
        if pairs@.len() > 1 {
            assert(attrs_view(pairs@)[1] == pairs@[1 as int]@);
        }
    }
    if pairs.len() == 0 {
        return Err(ParseError::MissingRequiredAttribute {
            name: "name".to_owned(),
            record_kind: "spirvimageformat".to_owned(),
        });
    }
    if !str_eq(pairs[0].key.as_str(), "name") {
        return Err(ParseError::UnexpectedAttribute {
            key: pairs[0].key.clone(),
            record_kind: "spirvimageformat".to_owned(),
        });
    }
    if pairs.len() != 1 {
        return Err(ParseError::UnexpectedAttribute {
            key: pairs[1].key.clone(),
            record_kind: "spirvimageformat".to_owned(),
        });
    }
    Ok(pairs[0].value.clone())
}

/// The body of a `<format>` element: components, the SPIR-V image format
/// name, and planes, through the closing tag.
pub open spec fn parse_format_body(ev: Seq<EventV>, i: int, f: FormatV) -> Result<
    (FormatV, int),
    ErrV,
>
    decreases ev.len() - i,
{
    if i < 0 || i >= ev.len() {
        Err(end_err("format"@))
    } else {
        match ev[i] {
            EventV::End { name } => if name == "format"@ {
                Ok((f, i + 1))
            } else {
                Err(elem_err(name, "format"@))
            },
            EventV::Empty { name, attrs } => if name == "component"@ {
                match format_component_from_pairs(attrs_of(attrs)) {
                    Ok(c) => parse_format_body(
                        ev,
                        i + 1,
                        FormatV { components: f.components.push(c), ..f },
                    ),
                    Err(e) => Err(e),
                }
            } else if name == "spirvimageformat"@ {
                match spec_spirv_image_format_name(attrs) {
                    Ok(n) => parse_format_body(
                        ev,
                        i + 1,
                        FormatV { spirv_image_format: Some(n), ..f },
                    ),
                    Err(e) => Err(e),
                }
            } else if name == "plane"@ {
                match format_plane_from_pairs(attrs_of(attrs)) {
                    Ok(pl) => parse_format_body(ev, i + 1, FormatV { planes: f.planes.push(pl), ..f }),
                    Err(e) => Err(e),
                }
            } else {
                Err(elem_err(name, "format"@))
            },
            e => Err(elem_err(ev_tag(e), "format"@)),
        }
    }
}

/// A format body only ever moves the cursor forward.
pub proof fn lemma_parse_format_body_advances(ev: Seq<EventV>, i: int, f: FormatV)
    ensures
        parse_format_body(ev, i, f) matches Ok(p) ==> i < p.1 <= ev.len(),
    decreases ev.len() - i,
{
    if 0 <= i < ev.len() {
        match ev[i] {
            EventV::Empty { name, attrs } => {
                if name == "component"@ {
                    match format_component_from_pairs(attrs_of(attrs)) {
                        Ok(c) => lemma_parse_format_body_advances(
                            ev,
                            i + 1,
                            FormatV { components: f.components.push(c), ..f },
                        ),
                        Err(e) => {},
                    }
                } else if name == "spirvimageformat"@ {
                    match spec_spirv_image_format_name(attrs) {
                        Ok(n) => lemma_parse_format_body_advances(
                            ev,
                            i + 1,
                            FormatV { spirv_image_format: Some(n), ..f },
                        ),
                        Err(e) => {},
                    }
                } else if name == "plane"@ {
                    match format_plane_from_pairs(attrs_of(attrs)) {
                        Ok(pl) => lemma_parse_format_body_advances(
                            ev,
                            i + 1,
                            FormatV { planes: f.planes.push(pl), ..f },
                        ),
                        Err(e) => {},
                    }
                }
            },
            _ => {},
        }
    }
}

/// Consumes the body of one `<format>` element into `f`.
#[verifier::loop_isolation(false)]
fn do_format_body(f: &mut Format, events: &Vec<XmlEvent>, pos: usize) -> (r: Result<
    usize,
    ParseError,
>)
    ensures
        match r {
            Ok(j) => parse_format_body(events_view(events@), pos as int, old(f)@) == Ok::<
                _,
                ErrV,
            >((final(f)@, j as int)),
            Err(e) => parse_format_body(events_view(events@), pos as int, old(f)@) == Err::<
                (FormatV, int),
                ErrV,
            >(e@),
        },
{
    let ghost ev = events_view(events@);
    let ghost f0 = old(f)@;
    let mut cur = pos;
    loop
        invariant
            pos <= cur,
            parse_format_body(ev, cur as int, f@) == parse_format_body(ev, pos as int, f0),
        decreases ev.len() - cur,
    {
        if cur >= events.len() {
            return Err(ParseError::UnexpectedElement {
                tag: String::new(),
                context: "format".to_owned(),
            });
        }
        proof {
            assert(ev[cur as int] == events@[cur as int]@);
        }
        match &events[cur] {
            XmlEvent::End { name: n } => {
                if str_eq(n.as_str(), "format") {
                    return Ok(cur + 1);
                } else {
                    return Err(ParseError::UnexpectedElement {
                        tag: n.clone(),
                        context: "format".to_owned(),
                    });
                }
            },
            XmlEvent::Empty { name: n, attrs: a } => {
                if str_eq(n.as_str(), "component") {
                    match FormatComponent::from_attrs(a.as_str()) {
                        Ok(c) => {
                            proof {
                                assert(seq_view(f.components@.push(c)) =~= seq_view(
                                    f.components@,
                                ).push(c@));
                            }
                            f.components.push(c);
                        },
                        Err(e) => {
                            return Err(e);
                        },
                    }
                } else if str_eq(n.as_str(), "spirvimageformat") {
                    match spirv_image_format_name(a.as_str()) {
                        Ok(nm) => {
                            f.spirv_image_format = Some(nm);
                        },
                        Err(e) => {
                            return Err(e);
                        },
                    }
                } else if str_eq(n.as_str(), "plane") {
                    match FormatPlane::from_attrs(a.as_str()) {
                        Ok(pl) => {
                            proof {
                                assert(seq_view(f.planes@.push(pl)) =~= seq_view(f.planes@).push(
                                    pl@,
                                ));
                            }
                            f.planes.push(pl);
                        },
                        Err(e) => {
                            return Err(e);
                        },
                    }
                } else {
                    return Err(ParseError::UnexpectedElement {
                        tag: n.clone(),
                        context: "format".to_owned(),
                    });
                }
            },
            e => {
                return Err(ParseError::UnexpectedElement {
                    tag: exec_ev_tag(e),
                    context: "format".to_owned(),
                });
            },
        }
        cur += 1;
    }
}

/// The body of the `<formats>` section: `<format>` elements through the
/// closing tag.
pub open spec fn parse_formats(ev: Seq<EventV>, i: int, fs: Seq<FormatV>) -> Result<
    (Seq<FormatV>, int),
    ErrV,
>
    decreases ev.len() - i,
    via parse_formats_dec
{
    if i < 0 || i >= ev.len() {
        Err(end_err("formats"@))
    } else {
        match ev[i] {
            EventV::End { name } => if name == "formats"@ {
                Ok((fs, i + 1))
            } else {
                Err(elem_err(name, "formats"@))
            },
            EventV::Start { name, attrs } => if name == "format"@ {
                match format_from_pairs(attrs_of(attrs)) {
                    Ok(f) => match parse_format_body(ev, i + 1, f) {
                        Ok((f2, j)) => parse_formats(ev, j, fs.push(f2)),
                        Err(e) => Err(e),
                    },
                    Err(e) => Err(e),
                }
            } else {
                Err(elem_err(name, "formats"@))
            },
            e => Err(elem_err(ev_tag(e), "formats"@)),
        }
    }
}

#[via_fn]
proof fn parse_formats_dec(ev: Seq<EventV>, i: int, fs: Seq<FormatV>) {
    if 0 <= i < ev.len() {
        match ev[i] {
            EventV::Start { name, attrs } => {
                if name == "format"@ {
                    match format_from_pairs(attrs_of(attrs)) {
                        Ok(f) => lemma_parse_format_body_advances(ev, i + 1, f),
                        Err(e) => {},
                    }
                }
            },
            _ => {},
        }
    }
}

/// A `<formats>` section whose opening tag carries `attrs`: the tag may
/// only hold a `comment` attribute, then the body runs to the closing tag.
pub open spec fn spec_do_formats(
    ev: Seq<EventV>,
    i: int,
    attrs: Seq<char>,
    fs: Seq<FormatV>,
) -> Result<(Seq<FormatV>, int), ErrV> {
    match first_err_by(attrs_of(attrs), comment_only_checker("formats"@)) {
        Some(e) => Err(e),
        None => parse_formats(ev, i, fs),
    }
}

/// Consumes a `<formats>` section, appending each format in document order.
#[verifier::loop_isolation(false)]
pub fn do_formats(
    formats: &mut Vec<Format>,
    attrs: &str,
    events: &Vec<XmlEvent>,
    pos: usize,
) -> (r: Result<usize, ParseError>)
    ensures
        match r {
            Ok(j) => spec_do_formats(
                events_view(events@),
                pos as int,
                attrs@,
                seq_view(old(formats)@),
            ) == Ok::<_, ErrV>((seq_view(final(formats)@), j as int)),
            Err(e) => spec_do_formats(
                events_view(events@),
                pos as int,
                attrs@,
                seq_view(old(formats)@),
            ) == Err::<(Seq<FormatV>, int), ErrV>(e@),
        },
{
    if let Some(e) = check_comment_only(attrs, "formats") {
        return Err(e);
    }
    let ghost ev = events_view(events@);
    let ghost fs0 = seq_view(old(formats)@);
    let mut cur = pos;
    loop
        invariant
            pos <= cur,
            parse_formats(ev, cur as int, seq_view(formats@)) == parse_formats(ev, pos as int, fs0),
        decreases ev.len() - cur,
    {
        if cur >= events.len() {
            return Err(ParseError::UnexpectedElement {
                tag: String::new(),
                context: "formats".to_owned(),
            });
        }
        proof {
            assert(ev[cur as int] == events@[cur as int]@);
        }
        match &events[cur] {
            XmlEvent::End { name: n } => {
                if str_eq(n.as_str(), "formats") {
                    return Ok(cur + 1);
                } else {
                    return Err(ParseError::UnexpectedElement {
                        tag: n.clone(),
                        context: "formats".to_owned(),
                    });
                }
            },
            XmlEvent::Start { name: n, attrs: a } => {
                if str_eq(n.as_str(), "format") {
                    let mut f = match Format::from_attrs(a.as_str()) {
                        Ok(f) => f,
                        Err(e) => {
                            return Err(e);
                        },
                    };
                    let ghost fv0 = f@;
                    match do_format_body(&mut f, events, cur + 1) {
                        Ok(j) => {
                            proof {
                                lemma_parse_format_body_advances(ev, cur as int + 1, fv0);
                                assert(seq_view(formats@.push(f)) =~= seq_view(formats@).push(f@));
                            }
                            formats.push(f);
                            cur = j;
                            continue ;
                        },
                        Err(e) => {
                            return Err(e);
                        },
                    }
                } else {
                    return Err(ParseError::UnexpectedElement {
                        tag: n.clone(),
                        context: "formats".to_owned(),
                    });
                }
            },
            e => {
                return Err(ParseError::UnexpectedElement {
                    tag: exec_ev_tag(e),
                    context: "formats".to_owned(),
                });
            },
        }
        cur += 1;
    }
}

/// A `<formats>` body only ever moves the cursor forward.
pub proof fn lemma_parse_formats_advances(ev: Seq<EventV>, i: int, fs: Seq<FormatV>)
    ensures
        parse_formats(ev, i, fs) matches Ok(p) ==> i < p.1 <= ev.len(),
    decreases ev.len() - i,
{
    if 0 <= i < ev.len() {
        match ev[i] {
            EventV::Start { name, attrs } => {
                if name == "format"@ {
                    match format_from_pairs(attrs_of(attrs)) {
                        Ok(f) => {
                            lemma_parse_format_body_advances(ev, i + 1, f);
                            match parse_format_body(ev, i + 1, f) {
                                Ok((f2, j)) => lemma_parse_formats_advances(ev, j, fs.push(f2)),
                                Err(e) => {},
                            }
                        },
                        Err(e) => {},
                    }
                }
            },
            _ => {},
        }
    }
}

/// A `<formats>` section that closes at once adds nothing.
pub proof fn lemma_formats_empty_section(ev: Seq<EventV>, i: int, fs: Seq<FormatV>)
    requires
        0 <= i < ev.len(),
        ev[i] == (EventV::End { name: "formats"@ }),
    ensures
        parse_formats(ev, i, fs) == Ok::<_, ErrV>((fs, i + 1)),
{
}

} // verus!
