use wgsl_gpu::arguments::{arguments, arguments_trait_impl, derive_arguments, ArgumentsAttributes, ArgumentsOutcome};
use wgsl_gpu::entry::{entry, filtered_input, EntryOutcome, EntryPanic, Stage};
use wgsl_gpu::errors::MacroError;
use wgsl_gpu::ident::formattable_ident;
use wgsl_gpu::syntax::{Arg, Attribute, Field, FnInput, ItemFn, Param, TypeShape, Value};
use wgsl_gpu::texture::texture_data;
use wgsl_gpu::vertex::VertexTypeError;

fn flag(n: &str) -> Arg {
    Arg::Flag(n.to_string())
}

fn int_arg(n: &str, v: &str) -> Arg {
    Arg::Expr(n.to_string(), Value::Int(v.to_string()))
}

fn text(n: &str, v: &str) -> Arg {
    Arg::Expr(n.to_string(), Value::Str(v.to_string()))
}

fn attr(name: &str, args: Vec<Arg>) -> Attribute {
    Attribute { ident: Some(name.to_string()), args: Ok(args) }
}

fn path(segs: &[&str]) -> TypeShape {
    TypeShape::Path(segs.iter().map(|s| s.to_string()).collect())
}

fn param(attrs: Vec<Attribute>, ty: TypeShape) -> FnInput {
    FnInput::Typed(Param { attrs, ty })
}

fn field(ident: &str, ty: TypeShape, attrs: Vec<Attribute>) -> Field {
    Field { ident: ident.to_string(), ty, attrs }
}

fn uniform(set: &str) -> FnInput {
    param(
        vec![attr("spirv", vec![int_arg("descriptor_set", set), int_arg("binding", "0"), flag("uniform")])],
        TypeShape::Reference(Box::new(path(&["ShaderUniform"]))),
    )
}

fn vertex_shader(inputs: Vec<FnInput>, output: Option<TypeShape>) -> ItemFn {
    ItemFn {
        ident: "main_vs".to_string(),
        attrs: vec![attr("spirv", vec![flag("vertex")]), attr("inline", vec![])],
        inputs,
        output,
    }
}

#[test]
fn entry_generates_for_a_complete_function() {
    let item = vertex_shader(
        vec![uniform("0"), param(vec![attr("wgsl_gpu", vec![flag("arguments"), text("step_mode", "vertex")])], path(&["Vertex"]))],
        Some(path(&["VertexOutput"])),
    );
    match entry(&item) {
        EntryOutcome::Generated(plan) => {
            assert_eq!(plan.stage, Stage::Vertex);
            assert_eq!(plan.gpu_name, "main_vs_gpu");
            assert_eq!(plan.bind_groups.total, 1);
        }
        _ => panic!("expected the generated entry point"),
    }
}

#[test]
fn entry_panics_without_return_type() {
    let item = vertex_shader(vec![uniform("0")], None);
    assert!(matches!(entry(&item), EntryOutcome::Panics(EntryPanic::ReturnTypeRequired)));
}

#[test]
fn entry_panics_on_descriptor_set_beyond_table() {
    let item = vertex_shader(vec![uniform("8"), uniform("9")], Some(path(&["VertexOutput"])));
    assert!(matches!(
        entry(&item),
        EntryOutcome::Panics(EntryPanic::DescriptorSetOutOfRange { input: 0, set: 8 })
    ));
    let later = vertex_shader(vec![uniform("7"), uniform("12")], Some(path(&["VertexOutput"])));
    assert!(matches!(
        entry(&later),
        EntryOutcome::Panics(EntryPanic::DescriptorSetOutOfRange { input: 1, set: 12 })
    ));
}

#[test]
fn entry_refuses_a_function_without_stage() {
    let mut item = vertex_shader(vec![uniform("0")], Some(path(&["VertexOutput"])));
    item.attrs = vec![attr("spirv", vec![])];
    assert!(matches!(entry(&item), EntryOutcome::Refused(MacroError::VertexOrFragmentRequired)));
    // the header is read before the return type is asked for
    item.output = None;
    assert!(matches!(entry(&item), EntryOutcome::Refused(MacroError::VertexOrFragmentRequired)));
}

#[test]
fn filtering_twice_keeps_the_filtered_function() {
    let item = vertex_shader(
        vec![
            uniform("0"),
            param(vec![attr("wgsl_gpu", vec![flag("arguments")]), attr("allow", vec![])], path(&["Vertex"])),
        ],
        Some(path(&["VertexOutput"])),
    );
    let f = filtered_input(&item);
    assert_eq!(f.attrs, vec![false, true]);
    assert_eq!(f.inputs[0], Some(vec![false]));
    assert_eq!(f.inputs[1], Some(vec![false, true]));
    // the function emitted again: only `inline` on it, `allow` on the second parameter
    let again = vertex_shader(
        vec![param(vec![], path(&["ShaderUniform"])), param(vec![attr("allow", vec![])], path(&["Vertex"]))],
        Some(path(&["VertexOutput"])),
    );
    let mut emitted = again;
    emitted.attrs = vec![attr("inline", vec![])];
    let g = filtered_input(&emitted);
    assert_eq!(g.attrs, vec![true]);
    assert_eq!(g.inputs[0], Some(vec![]));
    assert_eq!(g.inputs[1], Some(vec![true]));
}

#[test]
fn derive_generates_table_and_impl() {
    let attrs = vec![attr("wgsl_gpu", vec![flag("attributes")])];
    let fields = vec![
        field("position", path(&["Vec2"]), vec![attr("wgsl_gpu", vec![int_arg("location", "0")])]),
        field("color", path(&["Vec3"]), vec![attr("wgsl_gpu", vec![int_arg("location", "1")])]),
    ];
    match derive_arguments(&attrs, &"Vertex".to_string(), &fields) {
        ArgumentsOutcome::Generated(plan) => {
            assert_eq!(plan.locations.unwrap().len(), 2);
            assert_eq!(plan.trait_impl.tuple_types, vec![0, 1]);
            assert_eq!(plan.trait_impl.from, vec![0, 1]);
            assert_eq!(plan.data_macro.passed, vec![0, 1]);
            assert_eq!(plan.data_macro.macro_name, "wgsl_gpu_Vertex_transform");
        }
        _ => panic!("expected the generated derive"),
    }
}

#[test]
fn derive_refuses_a_field_without_attribute() {
    let fields = vec![field("a", path(&["f32"]), vec![])];
    assert!(matches!(
        derive_arguments(&vec![], &"S".to_string(), &fields),
        ArgumentsOutcome::Refused(MacroError::MissingAttribute(0))
    ));
    let unknown = vec![attr("wgsl_gpu", vec![flag("atributes")])];
    assert!(matches!(
        derive_arguments(&unknown, &"S".to_string(), &fields),
        ArgumentsOutcome::Refused(MacroError::Arguments(_))
    ));
}

#[test]
fn derive_panics_on_a_vertex_attribute_without_format() {
    let attrs = vec![attr("wgsl_gpu", vec![flag("attributes")])];
    let fields = vec![
        field("a", path(&["f32"]), vec![attr("wgsl_gpu", vec![int_arg("location", "0")])]),
        field("b", path(&["bool"]), vec![attr("wgsl_gpu", vec![int_arg("location", "1")])]),
    ];
    match derive_arguments(&attrs, &"S".to_string(), &fields) {
        ArgumentsOutcome::Panics(1, VertexTypeError::UnsupportedType(n)) => assert_eq!(n, "bool"),
        _ => panic!("expected a panic at the second field"),
    }
    // without the table no format is needed
    assert!(matches!(derive_arguments(&vec![], &"S".to_string(), &fields), ArgumentsOutcome::Generated(_)));
}

#[test]
fn trait_impl_takes_each_field_from_its_element() {
    let fields = vec![
        field("x", path(&["f32"]), vec![]),
        field("y", path(&["f32"]), vec![]),
        field("z", path(&["u32"]), vec![]),
    ];
    let t = arguments_trait_impl(&fields);
    assert_eq!(t.tuple_types, vec![0, 1, 2]);
    assert_eq!(t.from, vec![0, 1, 2]);
    let with_attrs: Vec<Field> = fields
        .iter()
        .map(|f| field(&f.ident, path(&["f32"]), vec![attr("wgsl_gpu", vec![int_arg("location", "0")])]))
        .collect();
    let plan = arguments(&ArgumentsAttributes { attributes: false }, &"P".to_string(), &with_attrs).ok().unwrap();
    for i in 0..3 {
        assert_eq!(plan.data_macro.passed[plan.trait_impl.from[i]], i);
    }
}

#[test]
fn texture_texels_follow_column_and_row() {
    let data = texture_data(2, 3);
    assert_eq!(data.len(), 24);
    assert_eq!(&data[0..4], &[0, 0, 0, 255]);
    assert_eq!(&data[16..20], &[1, 1, 0, 255]);
    assert_eq!(&data[20..24], &[1, 2, 0, 255]);
    let wide = texture_data(300, 1);
    assert_eq!(&wide[4 * 299..4 * 300], &[43, 0, 0, 255]);
}

#[test]
fn empty_textures_have_no_bytes() {
    assert!(texture_data(0, 0).is_empty());
    assert!(texture_data(3, 0).is_empty());
    assert!(texture_data(0, 5).is_empty());
}

#[test]
fn identifier_texts() {
    assert!(formattable_ident("frag_coord"));
    assert!(formattable_ident("_"));
    assert!(formattable_ident("MAIN_VS_NAME"));
    assert!(formattable_ident("r#fn"));
    assert!(formattable_ident("\u{e9}t\u{e9}"));
    assert!(!formattable_ident(""));
    assert!(!formattable_ident("9a"));
    assert!(!formattable_ident("frag coord"));
    assert!(!formattable_ident("R#FOO_NAME"));
    assert!(!formattable_ident("r#self"));
    assert!(!formattable_ident("r#_"));
    assert!(!formattable_ident("r#"));
}

#[test]
fn entry_panics_on_a_raw_function_name() {
    let mut item = vertex_shader(vec![uniform("0")], Some(path(&["VertexOutput"])));
    item.ident = "r#main".to_string();
    match entry(&item) {
        EntryOutcome::Panics(EntryPanic::InvalidIdent { text }) => assert_eq!(text, "R#MAIN_NAME"),
        _ => panic!("expected a panic on the constant's name"),
    }
    // the name is formatted before the return type is asked for
    item.output = None;
    assert!(matches!(entry(&item), EntryOutcome::Panics(EntryPanic::InvalidIdent { .. })));
}

#[test]
fn derive_panics_on_a_builtin_that_is_no_identifier() {
    let fields = vec![
        field("a", path(&["Vec4"]), vec![attr("wgsl_gpu", vec![text("output", "bad name"), text("input", "frag_coord")])]),
        field("b", path(&["Vec4"]), vec![attr("wgsl_gpu", vec![text("output", "position"), text("input", "r#self")])]),
    ];
    // the input names are written first
    match derive_arguments(&vec![], &"S".to_string(), &fields) {
        ArgumentsOutcome::InvalidBuiltin(1, t) => assert_eq!(t, "r#self"),
        _ => panic!("expected a panic on the second field's input"),
    }
    let outputs_only =
        vec![field("a", path(&["Vec4"]), vec![attr("wgsl_gpu", vec![text("output", "bad name"), text("input", "frag_coord")])])];
    match derive_arguments(&vec![], &"S".to_string(), &outputs_only) {
        ArgumentsOutcome::InvalidBuiltin(0, t) => assert_eq!(t, "bad name"),
        _ => panic!("expected a panic on the output"),
    }
    // with a location the builtin names are not used
    let located = vec![field(
        "a",
        path(&["Vec4"]),
        vec![attr("wgsl_gpu", vec![int_arg("location", "0"), text("output", "bad name")])],
    )];
    assert!(matches!(derive_arguments(&vec![], &"S".to_string(), &located), ArgumentsOutcome::Generated(_)));
}
