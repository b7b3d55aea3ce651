//! Tests that run whole documents through the parser, covering each
//! section, the scenarios of the documented grammar, and the fail-closed
//! behavior on schema drift.

use vk_dot_xml_parser::errors::ParseError;
use vk_dot_xml_parser::extensions::ExtensionType;
use vk_dot_xml_parser::formats::{FormatComponentName, NumericFormat};
use vk_dot_xml_parser::type_entry::{TypeEntry, TypeVariant};
use vk_dot_xml_parser::VulkanRegistry;

#[test]
fn empty_registry_has_all_lists_present_and_empty() {
    let reg = VulkanRegistry::from_static_str("<registry></registry>").unwrap();
    assert!(reg.platforms.is_empty());
    assert!(reg.vendors.is_empty());
    assert!(reg.types.is_empty());
    assert!(reg.api_constants.is_empty());
    assert!(reg.api_constant_aliases.is_empty());
    assert!(reg.enums_groups.is_empty());
    assert!(reg.commands.is_empty());
    assert!(reg.command_aliases.is_empty());
    assert!(reg.features.is_empty());
    assert!(reg.extensions.is_empty());
    assert!(reg.formats.is_empty());
    assert!(reg.spirv_extensions.is_empty());
    assert!(reg.spirv_capabilities.is_empty());
}

#[test]
fn empty_sections_yield_empty_lists() {
    let reg = VulkanRegistry::from_static_str(
        "<registry><platforms></platforms><tags></tags><types></types>\
         <commands></commands><extensions></extensions><formats></formats>\
         <spirvextensions></spirvextensions><spirvcapabilities></spirvcapabilities></registry>",
    )
    .unwrap();
    assert!(reg.platforms.is_empty());
    assert!(reg.vendors.is_empty());
    assert!(reg.types.is_empty());
    assert!(reg.commands.is_empty());
    assert!(reg.extensions.is_empty());
    assert!(reg.formats.is_empty());
    assert!(reg.spirv_extensions.is_empty());
    assert!(reg.spirv_capabilities.is_empty());
}

#[test]
fn xml_declaration_and_comments_are_skipped() {
    let reg = VulkanRegistry::from_static_str(
        "<?xml version=\"1.0\" encoding=\"UTF-8\"?>\n\
         <!-- a lexer-level comment -->\n\
         <registry><comment>Copyright text</comment></registry>",
    )
    .unwrap();
    assert!(reg.platforms.is_empty());
}

#[test]
fn one_platform_record() {
    let reg = VulkanRegistry::from_static_str(
        r#"<registry><platforms comment="c"><platform name="x" protect="DEFINE_X" comment="c"/></platforms></registry>"#,
    )
    .unwrap();
    assert_eq!(reg.platforms.len(), 1);
    assert_eq!(reg.platforms[0].name, "x");
    assert_eq!(reg.platforms[0].protect, "DEFINE_X");
    assert_eq!(reg.platforms[0].comment, "c");
}

#[test]
fn vendor_tags_parse() {
    let reg = VulkanRegistry::from_static_str(
        r#"<registry><tags><tag name="KHR" author="Khronos" contact="x"/></tags></registry>"#,
    )
    .unwrap();
    assert_eq!(reg.vendors.len(), 1);
    assert_eq!(reg.vendors[0].name, "KHR");
    assert_eq!(reg.vendors[0].author, "Khronos");
}

#[test]
fn api_constants_do_not_touch_enum_groups() {
    let reg = VulkanRegistry::from_static_str(
        r#"<registry><enums name="API Constants"><enum name="K" value="256"/></enums></registry>"#,
    )
    .unwrap();
    assert_eq!(reg.api_constants.len(), 1);
    assert_eq!(reg.api_constants[0].name, "K");
    assert_eq!(reg.api_constants[0].value, "256");
    assert!(reg.enums_groups.is_empty());
    assert!(reg.api_constant_aliases.is_empty());
}

#[test]
fn api_constant_alias_goes_to_alias_list() {
    let reg = VulkanRegistry::from_static_str(
        r#"<registry><enums name="API Constants"><enum name="B" alias="A"/></enums></registry>"#,
    )
    .unwrap();
    assert!(reg.api_constants.is_empty());
    assert_eq!(reg.api_constant_aliases.len(), 1);
    assert_eq!(reg.api_constant_aliases[0].alias_of, "A");
}

#[test]
fn enum_group_partitions_entries() {
    let reg = VulkanRegistry::from_static_str(
        r#"<registry><enums name="VkResult" type="enum">
             <enum name="VK_SUCCESS" value="0"/>
             <enum name="VK_OLD" alias="VK_SUCCESS"/>
             <enum name="VK_BIT" bitpos="3"/>
             <unused start="5"/>
           </enums></registry>"#,
    )
    .unwrap();
    assert_eq!(reg.enums_groups.len(), 1);
    let g = &reg.enums_groups[0];
    assert_eq!(g.name, "VkResult");
    assert_eq!(g.values.len(), 1);
    assert_eq!(g.values[0].value, "0");
    assert_eq!(g.aliases.len(), 1);
    assert_eq!(g.aliases[0].alias_of, "VK_SUCCESS");
    assert_eq!(g.bit_positions.len(), 1);
    assert_eq!(g.bit_positions[0].bit, "3");
}

#[test]
fn enum_entry_with_no_disambiguating_key_is_ambiguous() {
    let e = VulkanRegistry::from_static_str(
        r#"<registry><enums name="G"><enum name="X"/></enums></registry>"#,
    )
    .unwrap_err();
    assert!(matches!(e, ParseError::AmbiguousEnumEntry { .. }));
}

#[test]
fn alias_outranks_bitpos_in_enum_groups() {
    // Both keys present: the alias classification wins, so the failure is
    // the stray `bitpos` key on an alias record, never a bit-position
    // record.
    let e = VulkanRegistry::from_static_str(
        r#"<registry><enums name="G"><enum name="E2" alias="E1" bitpos="3"/></enums></registry>"#,
    )
    .unwrap_err();
    match e {
        ParseError::UnexpectedAttribute { key, record_kind } => {
            assert_eq!(key, "bitpos");
            assert_eq!(record_kind, "EnumAlias");
        },
        other => panic!("wrong error: {other:?}"),
    }
}

#[test]
fn unrecognized_attribute_aborts_with_no_registry() {
    let r = VulkanRegistry::from_static_str(
        r#"<registry><enums name="API Constants"><enum name="X" weirdattr="1"/></enums></registry>"#,
    );
    match r {
        Err(ParseError::UnexpectedAttribute { key, .. }) => assert_eq!(key, "weirdattr"),
        other => panic!("expected an attribute error, got {other:?}"),
    }
}

#[test]
fn unknown_section_is_fatal() {
    let e = VulkanRegistry::from_static_str("<registry><wat></wat></registry>").unwrap_err();
    match e {
        ParseError::UnexpectedElement { tag, .. } => assert_eq!(tag, "wat"),
        other => panic!("wrong error: {other:?}"),
    }
}

#[test]
fn structure_with_plain_member() {
    let reg = VulkanRegistry::from_static_str(
        r#"<registry><types><type category="struct" name="S"><member><type>uint32_t</type> <name>f</name></member></type></types></registry>"#,
    )
    .unwrap();
    assert_eq!(reg.types.len(), 1);
    match &reg.types[0] {
        TypeEntry::Structure(s) => {
            assert_eq!(s.name, "S");
            assert_eq!(s.members.len(), 1);
            assert_eq!(s.members[0].name, "f");
            assert_eq!(s.members[0].ty, "uint32_t");
            assert_eq!(s.members[0].ty_variant, TypeVariant::Normal);
        },
        other => panic!("wrong entry: {other:?}"),
    }
}

#[test]
fn member_const_pointer_to_const_pointer() {
    let reg = VulkanRegistry::from_static_str(
        r#"<registry><types><type category="struct" name="S"><member>const <type>Bar</type>* const* <name>pp</name></member></type></types></registry>"#,
    )
    .unwrap();
    match &reg.types[0] {
        TypeEntry::Structure(s) => {
            assert_eq!(s.members[0].ty, "Bar");
            assert_eq!(s.members[0].name, "pp");
            assert_eq!(s.members[0].ty_variant, TypeVariant::ConstPtrConstPtr);
        },
        other => panic!("wrong entry: {other:?}"),
    }
}

#[test]
fn member_array_and_bitfield_shapes() {
    let reg = VulkanRegistry::from_static_str(
        r#"<registry><types><type category="struct" name="S">
             <member><type>float</type> <name>m</name>[3][4]</member>
             <member><type>uint32_t</type> <name>w</name>:8</member>
             <member><type>char</type> <name>s</name>[<enum>VK_MAX</enum>]</member>
           </type></types></registry>"#,
    )
    .unwrap();
    match &reg.types[0] {
        TypeEntry::Structure(s) => {
            assert_eq!(s.members[0].ty_variant, TypeVariant::ArrayArrayInt(3, 4));
            assert_eq!(s.members[1].ty_variant, TypeVariant::Normal);
            assert_eq!(s.members[1].bitfields, Some(8));
            assert_eq!(
                s.members[2].ty_variant,
                TypeVariant::ArraySym(String::from("VK_MAX"))
            );
        },
        other => panic!("wrong entry: {other:?}"),
    }
}

#[test]
fn member_unknown_shape_token_fails_closed() {
    let e = VulkanRegistry::from_static_str(
        r#"<registry><types><type category="struct" name="S"><member><type>T</type> <name>f</name>[5]</member></type></types></registry>"#,
    )
    .unwrap_err();
    match e {
        ParseError::AmbiguousOrUnrecognizedShape { tokens } => assert_eq!(tokens, "[5]"),
        other => panic!("wrong error: {other:?}"),
    }
}

#[test]
fn type_entries_by_category() {
    let reg = VulkanRegistry::from_static_str(
        r#"<registry><types>
             <type name="int"/>
             <type requires="X11/Xlib.h" name="Display"/>
             <type category="include" name="vk_platform"/>
             <type category="bitmask">typedef <type>VkFlags</type> <name>VkAccessFlags</name>;</type>
             <type category="bitmask" name="VkHostImageCopyFlags" alias="VkHostImageCopyFlagsEXT"/>
             <type category="handle" objtypeenum="VK_OBJECT_TYPE_INSTANCE"><type>VK_DEFINE_HANDLE</type>(<name>VkInstance</name>)</type>
             <type category="enum" name="VkResult"/>
             <type category="enum" name="VkAccessFlagBits2"/>
             <type category="basetype">typedef <type>uint32_t</type> <name>VkBool32</name>;</type>
           </types></registry>"#,
    )
    .unwrap();
    assert_eq!(reg.types.len(), 9);
    assert!(matches!(&reg.types[0], TypeEntry::ExternType(t) if t.name == "int"));
    assert!(
        matches!(&reg.types[1], TypeEntry::ExternType(t) if t.requires_header == "X11/Xlib.h")
    );
    assert!(matches!(&reg.types[2], TypeEntry::Include(t) if t.name == "vk_platform"));
    assert!(
        matches!(&reg.types[3], TypeEntry::Bitmask(b) if b.name == "VkAccessFlags" && !b.flags64)
    );
    assert!(
        matches!(&reg.types[4], TypeEntry::TypeAlias(a) if a.alias_of == "VkHostImageCopyFlagsEXT")
    );
    assert!(
        matches!(&reg.types[5], TypeEntry::Handle(h) if h.name == "VkInstance" && !h.non_dispatchable)
    );
    assert!(matches!(&reg.types[6], TypeEntry::Enumeration(e) if e.name == "VkResult"));
    assert!(matches!(&reg.types[7], TypeEntry::Bitmask(b) if b.name == "VkAccessFlagBits2"));
    assert!(matches!(&reg.types[8], TypeEntry::BaseType(b) if b.name == "VkBool32"));
    assert_eq!(reg.types[8].name(), "VkBool32");
}

#[test]
fn bitmask_64_bit_typedef() {
    let reg = VulkanRegistry::from_static_str(
        r#"<registry><types><type category="bitmask" bitvalues="VkAccessFlagBits2">typedef <type>VkFlags64</type> <name>VkAccessFlags2</name>;</type></types></registry>"#,
    )
    .unwrap();
    assert!(matches!(&reg.types[0], TypeEntry::Bitmask(b) if b.flags64));
}

#[test]
fn funcpointer_text_is_normalized() {
    let reg = VulkanRegistry::from_static_str(
        "<registry><types><type category=\"funcpointer\">typedef void (VKAPI_PTR *\n    <name>PFN_vkVoidFunction</name>)(void);</type></types></registry>",
    )
    .unwrap();
    match &reg.types[0] {
        TypeEntry::FuncPointer(f) => {
            assert_eq!(f.name, "PFN_vkVoidFunction");
            assert!(!f.text.contains('\n'));
            assert!(!f.text.contains("  "));
        },
        other => panic!("wrong entry: {other:?}"),
    }
}

#[test]
fn define_text_decodes_entities() {
    let reg = VulkanRegistry::from_static_str(
        r#"<registry><types><type category="define">#define <name>VK_X</name> 1&lt;&lt;2</type></types></registry>"#,
    )
    .unwrap();
    match &reg.types[0] {
        TypeEntry::CppDefine(d) => {
            assert_eq!(d.name, "VK_X");
            assert!(d.text.contains("1<<2"));
        },
        other => panic!("wrong entry: {other:?}"),
    }
}

#[test]
fn command_with_params_and_alias() {
    let reg = VulkanRegistry::from_static_str(
        r#"<registry><commands comment="c">
             <command successcodes="VK_SUCCESS">
               <proto><type>VkResult</type> <name>vkMake</name></proto>
               <param optional="true"><type>uint32_t</type> <name>count</name></param>
               <param>const <type>VkThing</type>* <name>pThing</name></param>
               <param><type>void</type>** <name>ppData</name></param>
             </command>
             <command name="vkMakeKHR" alias="vkMake"/>
           </commands></registry>"#,
    )
    .unwrap();
    assert_eq!(reg.commands.len(), 1);
    let c = &reg.commands[0];
    assert_eq!(c.name, "vkMake");
    assert_eq!(c.return_ty, "VkResult");
    assert_eq!(c.success_codes.as_deref(), Some("VK_SUCCESS"));
    assert_eq!(c.params.len(), 3);
    assert_eq!(c.params[0].optional.as_deref(), Some("true"));
    assert_eq!(c.params[0].ty_variant, TypeVariant::Normal);
    assert_eq!(c.params[1].ty_variant, TypeVariant::ConstPtr);
    assert_eq!(c.params[2].ty_variant, TypeVariant::MutPtrMutPtr);
    assert_eq!(reg.command_aliases.len(), 1);
    assert_eq!(reg.command_aliases[0].alias_of, "vkMake");
}

#[test]
fn command_without_proto_is_rejected() {
    let e = VulkanRegistry::from_static_str(
        "<registry><commands><command></command></commands></registry>",
    )
    .unwrap_err();
    assert!(matches!(e, ParseError::MissingRequiredAttribute { .. }));
}

#[test]
fn feature_with_require_and_remove() {
    let reg = VulkanRegistry::from_static_str(
        r#"<registry><feature api="vulkan" name="VK_VERSION_1_0" number="1.0" comment="core">
             <require comment="Device initialization">
               <type name="VkInstance"/>
               <enum name="VK_SUCCESS"/>
               <enum offset="0" extends="VkResult" extnumber="2" name="VK_ERR_X"/>
               <enum bitpos="5" extends="VkAccessFlagBits" name="VK_ACCESS_X"/>
               <enum alias="OLD" name="NEW"/>
               <enum value="7" extends="VkE" name="VK_V"/>
               <command name="vkCreateInstance"/>
               <comment>inline note</comment>
             </require>
             <require depends="VK_F"/>
             <remove>
               <enum name="VK_GONE"/>
               <type name="VkGone"/>
               <command name="vkGone"/>
             </remove>
           </feature></registry>"#,
    )
    .unwrap();
    assert_eq!(reg.features.len(), 1);
    let f = &reg.features[0];
    assert_eq!(f.name, "VK_VERSION_1_0");
    assert_eq!(f.number, "1.0");
    assert_eq!(f.requirements.len(), 2);
    let r = &f.requirements[0];
    assert_eq!(r.required_types.len(), 1);
    assert_eq!(r.required_plain_enums.len(), 1);
    assert_eq!(r.required_offset_enums.len(), 1);
    assert_eq!(r.required_offset_enums[0].extension_number, 2);
    assert_eq!(r.required_bitpos_enums.len(), 1);
    assert_eq!(r.required_bitpos_enums[0].bitpos, 5);
    assert_eq!(r.required_alias_enums.len(), 1);
    assert_eq!(r.required_value_enums.len(), 1);
    assert_eq!(r.required_commands.len(), 1);
    assert_eq!(f.requirements[1].depends.as_deref(), Some("VK_F"));
    assert_eq!(f.removed_enums, vec![String::from("VK_GONE")]);
    assert_eq!(f.removed_types, vec![String::from("VkGone")]);
    assert_eq!(f.removed_commands, vec![String::from("vkGone")]);
}

#[test]
fn extension_with_requirements() {
    let reg = VulkanRegistry::from_static_str(
        r#"<registry><extensions comment="c">
             <extension name="VK_KHR_surface" number="1" type="instance" author="KHR" contact="x" supported="vulkan">
               <require>
                 <enum value="25" name="VK_KHR_SURFACE_SPEC_VERSION"/>
                 <type name="VkSurfaceKHR"/>
               </require>
             </extension>
           </extensions></registry>"#,
    )
    .unwrap();
    assert_eq!(reg.extensions.len(), 1);
    let x = &reg.extensions[0];
    assert_eq!(x.name, "VK_KHR_surface");
    assert_eq!(x.ty, ExtensionType::Instance);
    assert_eq!(x.requirements.len(), 1);
    assert_eq!(x.requirements[0].required_types.len(), 1);
    assert_eq!(x.requirements[0].required_value_enums.len(), 1);
}

#[test]
fn format_with_components_and_planes() {
    let reg = VulkanRegistry::from_static_str(
        r#"<registry><formats>
             <format name="VK_FORMAT_G8_B8R8_2PLANE_420_UNORM" class="x" blockSize="3" texelsPerBlock="1" chroma="420">
               <component name="G" bits="8" numericFormat="UNORM" planeIndex="0"/>
               <component name="B" bits="8" numericFormat="UNORM" planeIndex="1"/>
               <plane index="0" widthDivisor="1" heightDivisor="1" compatible="VK_FORMAT_R8_UNORM"/>
               <spirvimageformat name="Rgba8"/>
             </format>
           </formats></registry>"#,
    )
    .unwrap();
    assert_eq!(reg.formats.len(), 1);
    let f = &reg.formats[0];
    assert_eq!(f.block_size, 3);
    assert_eq!(f.texels_per_block, 1);
    assert_eq!(f.packed, 0);
    assert_eq!(f.chroma, Some(420));
    assert_eq!(f.components.len(), 2);
    assert_eq!(f.components[0].name, FormatComponentName::G);
    assert_eq!(f.components[0].numeric_format, NumericFormat::UNORM);
    assert_eq!(f.components[0].plane_index, Some(0));
    assert_eq!(f.planes.len(), 1);
    assert_eq!(f.planes[0].compatible, "VK_FORMAT_R8_UNORM");
    assert_eq!(f.spirv_image_format.as_deref(), Some("Rgba8"));
}

#[test]
fn format_bad_chroma_is_malformed() {
    let e = VulkanRegistry::from_static_str(
        r#"<registry><formats><format name="F" class="c" blockSize="1" texelsPerBlock="1" chroma="421"></format></formats></registry>"#,
    )
    .unwrap_err();
    assert!(matches!(e, ParseError::MalformedAttributeValue { .. }));
}

#[test]
fn spirv_sections_parse() {
    let reg = VulkanRegistry::from_static_str(
        r#"<registry>
             <spirvextensions comment="c">
               <spirvextension name="SPV_KHR_variable_pointers">
                 <enable version="VK_API_VERSION_1_1"/>
                 <enable extension="VK_KHR_variable_pointers"/>
               </spirvextension>
             </spirvextensions>
             <spirvcapabilities comment="c">
               <spirvcapability name="Shader">
                 <enable version="VK_API_VERSION_1_0"/>
                 <enable struct="VkPhysicalDeviceFeatures" feature="shaderFloat64" requires="VK_VERSION_1_0"/>
                 <enable property="VkPhysicalDeviceVulkan12Properties" member="denormBehaviorIndependence" value="VK_X" requires="VK_VERSION_1_2"/>
                 <enable extension="VK_KHR_multiview"/>
               </spirvcapability>
             </spirvcapabilities>
           </registry>"#,
    )
    .unwrap();
    assert_eq!(reg.spirv_extensions.len(), 1);
    let x = &reg.spirv_extensions[0];
    assert_eq!(x.version.as_deref(), Some("VK_API_VERSION_1_1"));
    assert_eq!(x.extension.as_deref(), Some("VK_KHR_variable_pointers"));
    assert_eq!(reg.spirv_capabilities.len(), 1);
    let c = &reg.spirv_capabilities[0];
    assert_eq!(c.version.as_deref(), Some("VK_API_VERSION_1_0"));
    assert_eq!(c.extension.as_deref(), Some("VK_KHR_multiview"));
    assert_eq!(c.structs.len(), 1);
    assert_eq!(c.structs[0].feature, "shaderFloat64");
    assert_eq!(c.properties.len(), 1);
    assert_eq!(c.properties[0].member, "denormBehaviorIndependence");
}

#[test]
fn union_members_parse() {
    let reg = VulkanRegistry::from_static_str(
        r#"<registry><types><type category="union" name="VkClearValue">
             <member><type>VkClearColorValue</type> <name>color</name></member>
             <member><type>VkClearDepthStencilValue</type> <name>depthStencil</name></member>
           </type></types></registry>"#,
    )
    .unwrap();
    match &reg.types[0] {
        TypeEntry::Union(u) => {
            assert_eq!(u.name, "VkClearValue");
            assert_eq!(u.members.len(), 2);
            assert_eq!(u.members[1].name, "depthStencil");
        },
        other => panic!("wrong entry: {other:?}"),
    }
}

#[test]
fn truncated_document_is_rejected() {
    let e = VulkanRegistry::from_static_str("<registry><platforms>").unwrap_err();
    assert!(matches!(e, ParseError::UnexpectedElement { .. }));
}

#[test]
fn missing_root_is_rejected() {
    assert!(VulkanRegistry::from_static_str("<other></other>").is_err());
    assert!(VulkanRegistry::from_static_str("").is_err());
}

#[test]
fn enum_group_bitwidth_flag() {
    let reg = VulkanRegistry::from_static_str(
        r#"<registry><enums name="VkAccessFlagBits2" type="bitmask" bitwidth="64"></enums></registry>"#,
    )
    .unwrap();
    assert!(reg.enums_groups[0].is_64_bit);
    let e = VulkanRegistry::from_static_str(
        r#"<registry><enums name="G" bitwidth="32"></enums></registry>"#,
    )
    .unwrap_err();
    assert!(matches!(e, ParseError::MalformedAttributeValue { .. }));
}

#[test]
fn non_dispatchable_handle() {
    let reg = VulkanRegistry::from_static_str(
        r#"<registry><types><type category="handle" parent="VkDevice" objtypeenum="VK_OBJECT_TYPE_FENCE"><type>VK_DEFINE_NON_DISPATCHABLE_HANDLE</type>(<name>VkFence</name>)</type></types></registry>"#,
    )
    .unwrap();
    match &reg.types[0] {
        TypeEntry::Handle(h) => {
            assert_eq!(h.name, "VkFence");
            assert!(h.non_dispatchable);
            assert_eq!(h.parent.as_deref(), Some("VkDevice"));
        },
        other => panic!("wrong entry: {other:?}"),
    }
}

#[test]
fn include_type_keeps_text() {
    let reg = VulkanRegistry::from_static_str(
        r#"<registry><types><type category="include" name="windows">#include &lt;windows.h&gt;</type></types></registry>"#,
    )
    .unwrap();
    match &reg.types[0] {
        TypeEntry::Include(i) => {
            assert_eq!(i.name, "windows");
            assert_eq!(i.text.as_deref(), Some("#include &lt;windows.h&gt;"));
        },
        other => panic!("wrong entry: {other:?}"),
    }
}

#[test]
fn comments_allowed_between_type_entries() {
    let reg = VulkanRegistry::from_static_str(
        r#"<registry><types><comment>section note</comment><type name="int"/></types></registry>"#,
    )
    .unwrap();
    assert_eq!(reg.types.len(), 1);
}

#[test]
fn member_values_attribute_rejects_commas() {
    let e = VulkanRegistry::from_static_str(
        r#"<registry><types><type category="struct" name="S"><member values="A,B"><type>T</type><name>f</name></member></type></types></registry>"#,
    )
    .unwrap_err();
    assert!(matches!(e, ParseError::MalformedAttributeValue { .. }));
}

#[test]
fn implicit_extern_sync_params_are_kept() {
    let reg = VulkanRegistry::from_static_str(
        r#"<registry><commands><command><proto><type>void</type><name>vkX</name></proto><implicitexternsyncparams><param>all sname:VkQueue objects</param></implicitexternsyncparams></command></commands></registry>"#,
    )
    .unwrap();
    assert_eq!(
        reg.commands[0].implicit_extern_sync_params.as_deref(),
        Some("all sname:VkQueue objects")
    );
}

#[test]
fn scenario_c_without_whitespace() {
    let reg = VulkanRegistry::from_static_str(
        r#"<registry><types><type category="struct" name="S"><member><type>uint32_t</type><name>f</name></member></type></types></registry>"#,
    )
    .unwrap();
    match &reg.types[0] {
        TypeEntry::Structure(s) => {
            assert_eq!(s.name, "S");
            assert_eq!(s.members.len(), 1);
            assert_eq!(s.members[0].name, "f");
            assert_eq!(s.members[0].ty, "uint32_t");
            assert_eq!(s.members[0].ty_variant, TypeVariant::Normal);
        },
        other => panic!("wrong entry: {other:?}"),
    }
}
