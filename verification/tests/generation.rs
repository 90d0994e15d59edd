use wgsl_gpu::arguments::{arguments, ArgumentsAttributes, SpirvAttr};
use wgsl_gpu::entry::{
    bind_sets_fit, bind_group_wgpu_type, entry_generation, entry_header, transform_macro_name, BindGroupAttributes,
    BindingType, Stage, StepMode,
};
use wgsl_gpu::errors::MacroError;
use wgsl_gpu::pipeline::{__const_max, __const_slice, pipeline_bind_groups, EntryType};
use wgsl_gpu::syntax::{Arg, ArrayLen, Attribute, Field, FnInput, ItemFn, Param, TypeShape, Value};
use wgsl_gpu::vertex::{rust_type_to_wgpu_attribute, vertex_format, VertexFormat, VertexTypeError};

fn flag(n: &str) -> Arg {
    Arg::Flag(n.to_string())
}

fn int_arg(n: &str, v: &str) -> Arg {
    Arg::Expr(n.to_string(), Value::Int(v.to_string()))
}

fn text(n: &str, v: &str) -> Arg {
    Arg::Expr(n.to_string(), Value::Str(v.to_string()))
}

fn attr(name: &str, args: Vec<Arg>) -> Attribute {
    Attribute { ident: Some(name.to_string()), args: Ok(args) }
}

fn path(segs: &[&str]) -> TypeShape {
    TypeShape::Path(segs.iter().map(|s| s.to_string()).collect())
}

fn array(elem: TypeShape, len: ArrayLen) -> TypeShape {
    TypeShape::Array(Box::new(elem), len)
}

fn reference(inner: TypeShape) -> TypeShape {
    TypeShape::Reference(Box::new(inner))
}

fn param(attrs: Vec<Attribute>, ty: TypeShape) -> FnInput {
    FnInput::Typed(Param { attrs, ty })
}

fn field(ident: &str, ty: TypeShape, attrs: Vec<Attribute>) -> Field {
    Field { ident: ident.to_string(), ty, attrs }
}

/// `main_vs` of the example shaders: a uniform and two argument structs.
fn vertex_entry() -> ItemFn {
    ItemFn {
        ident: "main_vs".to_string(),
        attrs: vec![attr("spirv", vec![flag("vertex")])],
        inputs: vec![
            param(
                vec![attr("spirv", vec![int_arg("descriptor_set", "0"), int_arg("binding", "0"), flag("uniform")])],
                reference(path(&["ShaderUniform"])),
            ),
            param(vec![attr("wgsl_gpu", vec![flag("arguments"), text("step_mode", "vertex")])], path(&["Vertex"])),
            param(
                vec![attr("wgsl_gpu", vec![flag("arguments"), text("step_mode", "instance")])],
                path(&["Instance"]),
            ),
        ],
        output: Some(path(&["VertexOutput"])),
    }
}

/// `main_fs` of the example shaders: a uniform, an image, a sampler and an
/// argument struct.
fn fragment_entry() -> ItemFn {
    ItemFn {
        ident: "main_fs".to_string(),
        attrs: vec![attr("spirv", vec![flag("fragment")])],
        inputs: vec![
            param(
                vec![attr("spirv", vec![int_arg("descriptor_set", "0"), int_arg("binding", "0"), flag("uniform")])],
                reference(path(&["ShaderUniform"])),
            ),
            param(vec![attr("spirv", vec![int_arg("descriptor_set", "1"), int_arg("binding", "0")])], reference(TypeShape::Macro)),
            param(vec![attr("spirv", vec![int_arg("descriptor_set", "1"), int_arg("binding", "1")])], reference(path(&["Sampler"]))),
            param(vec![attr("wgsl_gpu", vec![flag("arguments")])], path(&["VertexOutput"])),
        ],
        output: Some(path(&["shaders_dep", "FragmentOutput"])),
    }
}

#[test]
fn vertex_formats_of_scalars_vectors_and_arrays() {
    assert_eq!(vertex_format(&path(&["f32"])).ok(), Some(VertexFormat::Float32));
    assert_eq!(vertex_format(&path(&["glam", "Vec3"])).ok(), Some(VertexFormat::Float32x3));
    assert_eq!(vertex_format(&path(&["IVec4"])).ok(), Some(VertexFormat::Sint32x4));
    assert_eq!(vertex_format(&array(path(&["u32"]), ArrayLen::Int("2".to_string()))).ok(), Some(VertexFormat::Uint32x2));
    assert_eq!(rust_type_to_wgpu_attribute(&array(path(&["f32"]), ArrayLen::Int("4".to_string()))), VertexFormat::Float32x4);
    assert_eq!(VertexFormat::Uint32x3.name(), "Uint32x3");
}

#[test]
fn vertex_format_failures() {
    assert!(matches!(vertex_format(&path(&["bool"])), Err(VertexTypeError::UnsupportedType(n)) if n == "bool"));
    assert!(matches!(vertex_format(&TypeShape::Path(vec![])), Err(VertexTypeError::EmptyPath)));
    assert!(matches!(vertex_format(&reference(path(&["f32"]))), Err(VertexTypeError::InvalidType)));
    assert!(matches!(
        vertex_format(&array(path(&["f32"]), ArrayLen::Int("5".to_string()))),
        Err(VertexTypeError::UnsupportedArray(e, 5)) if e == "f32"
    ));
    assert!(matches!(
        vertex_format(&array(TypeShape::Other, ArrayLen::Int("2".to_string()))),
        Err(VertexTypeError::UnsupportedElement)
    ));
    assert!(matches!(vertex_format(&array(path(&["f32"]), ArrayLen::NotLit)), Err(VertexTypeError::LengthNotLiteral)));
    assert!(matches!(vertex_format(&array(path(&["f32"]), ArrayLen::OtherLit)), Err(VertexTypeError::LengthNotInteger)));
}

#[test]
fn derive_for_vertex_struct() {
    let fields = vec![
        field("position", path(&["Vec2"]), vec![attr("wgsl_gpu", vec![int_arg("location", "0")])]),
        field("color", path(&["Vec3"]), vec![attr("wgsl_gpu", vec![int_arg("location", "1")])]),
    ];
    let plan = arguments(&ArgumentsAttributes { attributes: true }, &"Vertex".to_string(), &fields).ok().unwrap();
    let locations = plan.locations.unwrap();
    assert_eq!(locations.len(), 2);
    let first = locations[0].as_ref().ok().unwrap();
    assert_eq!((first.field, first.format, first.location), (0, VertexFormat::Float32x2, 0));
    let second = locations[1].as_ref().ok().unwrap();
    assert_eq!((second.field, second.format, second.location), (1, VertexFormat::Float32x3, 1));
    assert_eq!(plan.data_macro.macro_name, "wgsl_gpu_Vertex_transform");
    assert!(matches!(plan.data_macro.fields[1].input, Ok(SpirvAttr::Location(1))));
}

#[test]
fn derive_without_attribute_table() {
    let fields = vec![
        field("vtx_pos", path(&["Vec4"]), vec![attr("wgsl_gpu", vec![text("output", "position"), text("input", "frag_coord")])]),
        field("vtx_color", path(&["Vec3"]), vec![attr("wgsl_gpu", vec![int_arg("location", "0")])]),
    ];
    let plan = arguments(&ArgumentsAttributes { attributes: false }, &"r#VertexOutput".to_string(), &fields)
        .ok()
        .unwrap();
    assert!(plan.locations.is_none());
    assert_eq!(plan.data_macro.macro_name, "wgsl_gpu_VertexOutput_transform");
    match &plan.data_macro.fields[0].input {
        Ok(SpirvAttr::Builtin(b)) => assert_eq!(b, "frag_coord"),
        _ => panic!("expected the input builtin"),
    }
}

#[test]
fn derive_errors() {
    let missing = vec![
        field("a", path(&["f32"]), vec![attr("wgsl_gpu", vec![int_arg("location", "0")])]),
        field("b", path(&["f32"]), vec![]),
    ];
    let e = arguments(&ArgumentsAttributes { attributes: true }, &"S".to_string(), &missing).err().unwrap();
    assert!(matches!(e, MacroError::MissingAttribute(1)));
    assert_eq!(e.message(), Some("missing wgsl_gpu attribute"));
    let no_location = vec![field("a", path(&["f32"]), vec![attr("wgsl_gpu", vec![text("output", "position")])])];
    let plan = arguments(&ArgumentsAttributes { attributes: true }, &"S".to_string(), &no_location).ok().unwrap();
    assert!(matches!(plan.locations.unwrap()[0], Err(MacroError::LocationRequired(0))));
}

#[test]
fn entry_for_vertex_stage() {
    let item = vertex_entry();
    let plan = entry_generation(&item).ok().unwrap();
    assert_eq!(plan.stage, Stage::Vertex);
    assert_eq!(plan.gpu_name, "main_vs_gpu");
    assert_eq!(plan.const_name, "MAIN_VS_NAME");
    assert_eq!(plan.wrapper_attrs, vec![true]);
    assert_eq!(plan.filtered.attrs, vec![false]);
    assert!(plan.macro_args[0].expand.is_none());
    match &plan.macro_args[1].expand {
        Some(Ok(Some(m))) => assert_eq!(m, "wgsl_gpu_Vertex_transform"),
        _ => panic!("expected the transform macro of Vertex"),
    }
    assert_eq!(plan.macro_args[1].attrs, vec![false]);
    match &plan.ret_macro {
        Ok(Some(m)) => assert_eq!(m, "wgsl_gpu_VertexOutput_transform"),
        _ => panic!("expected the transform macro of VertexOutput"),
    }
    let buffers = plan.vertex_buffers.ok().unwrap();
    assert_eq!(buffers.const_name, "MAIN_VS_VERTEX_BUFFER_LAYOUTS");
    assert_eq!(buffers.entries.len(), 2);
    assert_eq!((buffers.entries[0].input, buffers.entries[0].step_mode), (1, StepMode::Vertex));
    assert_eq!((buffers.entries[1].input, buffers.entries[1].step_mode), (2, StepMode::Instance));
    let groups = &plan.bind_groups;
    assert_eq!(groups.macro_name, "wgsl_gpu_main_vs_bind_groups_macro");
    assert_eq!(groups.total, 1);
    assert_eq!(groups.sets.len(), 8);
    assert_eq!(groups.sets[0].len(), 1);
    assert!(matches!(groups.sets[0][0].ty, Ok(BindingType::UniformBuffer)));
}

#[test]
fn entry_for_fragment_stage_and_pipeline() {
    let vertex = entry_generation(&vertex_entry()).ok().unwrap();
    let fragment = entry_generation(&fragment_entry()).ok().unwrap();
    assert_eq!(fragment.stage, Stage::Fragment);
    let groups = &fragment.bind_groups;
    assert_eq!(groups.total, 2);
    assert_eq!(groups.sets[1].len(), 2);
    assert_eq!(groups.sets[1][0].binding, 0);
    assert!(matches!(groups.sets[1][0].ty, Ok(BindingType::FloatTexture2d)));
    assert!(matches!(groups.sets[1][1].ty, Ok(BindingType::FilteringSampler)));
    match &fragment.ret_macro {
        Ok(Some(m)) => assert_eq!(m, "wgsl_gpu_FragmentOutput_transform"),
        _ => panic!("expected the transform macro of FragmentOutput"),
    }
    // no argument struct has a step mode, so there are no vertex buffers
    assert_eq!(fragment.vertex_buffers.ok().unwrap().entries.len(), 0);

    let layout = pipeline_bind_groups(&vertex.bind_groups, &fragment.bind_groups);
    assert_eq!(layout.len(), 2);
    assert_eq!(layout[0].len(), 1);
    assert!(layout[0][0].visibility.vertex && layout[0][0].visibility.fragment);
    assert_eq!(layout[0][0].ty, EntryType::Bound(BindingType::UniformBuffer));
    assert_eq!(layout[1].len(), 2);
    assert!(!layout[1][1].visibility.vertex && layout[1][1].visibility.fragment);
    assert_eq!(layout[1][1].binding, 1);
    assert_eq!(layout[1][1].ty, EntryType::Bound(BindingType::FilteringSampler));
}

#[test]
fn entry_header_errors() {
    let mut no_stage = vertex_entry();
    no_stage.attrs = vec![attr("spirv", vec![])];
    assert!(matches!(entry_header(&no_stage), Err(MacroError::VertexOrFragmentRequired)));

    let mut later_wins = vertex_entry();
    later_wins.attrs = vec![attr("spirv", vec![flag("fragment")]), attr("spirv", vec![flag("vertex")])];
    assert_eq!(entry_header(&later_wins).ok().unwrap().stage, Stage::Vertex);

    let mut receiver = vertex_entry();
    receiver.inputs.insert(0, FnInput::Receiver);
    assert!(matches!(entry_header(&receiver), Err(MacroError::SelfNotSupported(0))));

    let mut bad_param = vertex_entry();
    bad_param.inputs[1] = param(vec![attr("wgsl_gpu", vec![flag("argument")])], path(&["Vertex"]));
    assert!(matches!(entry_header(&bad_param), Err(MacroError::Arguments(_))));
}

#[test]
fn step_mode_errors() {
    let mut mismatch = vertex_entry();
    mismatch.inputs[2] = param(vec![attr("wgsl_gpu", vec![flag("arguments")])], path(&["Instance"]));
    let plan = entry_generation(&mismatch).ok().unwrap();
    assert!(matches!(plan.vertex_buffers, Err(MacroError::StepModeMismatch)));

    let mut invalid = vertex_entry();
    invalid.inputs[1] = param(vec![attr("wgsl_gpu", vec![flag("arguments"), text("step_mode", "Vertex")])], path(&["Vertex"]));
    let plan = entry_generation(&invalid).ok().unwrap();
    assert!(matches!(plan.vertex_buffers, Err(MacroError::InvalidStepMode)));
}

#[test]
fn transform_macro_names() {
    match transform_macro_name(&path(&["crate", "r#Foo"])) {
        Ok(Some(m)) => assert_eq!(m, "wgsl_gpu_Foo_transform"),
        _ => panic!("expected a macro name"),
    }
    assert!(matches!(transform_macro_name(&TypeShape::Path(vec![])), Ok(None)));
    let e = transform_macro_name(&reference(path(&["Foo"]))).err().unwrap();
    assert_eq!(e.message(), Some("Return type must be a path"));
}

#[test]
fn binding_types() {
    let plain = BindGroupAttributes { descriptor_set: 0, binding: 0, uniform: false };
    let uniform = BindGroupAttributes { descriptor_set: 0, binding: 0, uniform: true };
    assert!(matches!(bind_group_wgpu_type(&uniform, &TypeShape::Other), Ok(BindingType::UniformBuffer)));
    assert!(matches!(bind_group_wgpu_type(&plain, &reference(reference(path(&["spirv_std", "Sampler"])))), Ok(BindingType::FilteringSampler)));
    assert!(matches!(bind_group_wgpu_type(&plain, &path(&["Texture"])), Err(MacroError::UnknownBindingType)));
}

#[test]
fn const_helpers() {
    assert_eq!(__const_max(3, 5), 5);
    assert_eq!(__const_max(7, 2), 7);
    let a = [1, 2, 3, 4];
    assert_eq!(__const_slice(&a, 2), &[1, 2]);
    assert_eq!(__const_slice(&a, 0).len(), 0);
}

#[test]
fn arrays_upload_as_vectors() {
    for (elem, vector) in [("f32", "Vec"), ("u32", "UVec"), ("i32", "IVec")] {
        for n in 2..=4 {
            let a = vertex_format(&array(path(&[elem]), ArrayLen::Int(n.to_string()))).ok();
            let v = vertex_format(&path(&[&format!("{vector}{n}")])).ok();
            assert!(a.is_some());
            assert_eq!(a, v);
        }
    }
}

#[test]
fn derive_and_entry_agree_on_transform_macro() {
    let fields = vec![field("position", path(&["Vec2"]), vec![attr("wgsl_gpu", vec![int_arg("location", "0")])])];
    let plan = arguments(&ArgumentsAttributes { attributes: false }, &"Vertex".to_string(), &fields).ok().unwrap();
    let entry = entry_generation(&vertex_entry()).ok().unwrap();
    match &entry.macro_args[1].expand {
        Some(Ok(Some(m))) => assert_eq!(*m, plan.data_macro.macro_name),
        _ => panic!("expected a transform macro"),
    }
}

#[test]
fn descriptor_sets_must_fit_the_table() {
    assert!(bind_sets_fit(&fragment_entry().inputs));
    let too_far = vec![param(vec![attr("spirv", vec![int_arg("descriptor_set", "8"), flag("uniform")])], TypeShape::Other)];
    assert!(!bind_sets_fit(&too_far));
    // a `spirv` attribute that names no binding binds nothing
    let builtin = vec![param(vec![attr("spirv", vec![flag("vertex_index")])], path(&["u32"]))];
    assert!(bind_sets_fit(&builtin));
}
