//! What the `entry` attribute generates for a shader entry point: a GPU
//! wrapper that spreads argument structs into shader parameters, the name of
//! that wrapper, the vertex buffer layouts and the bind group table.
use vstd::prelude::*;
use crate::args::{
    ArgError, ArgErrorV, errors_view, error_of, optional_text, defaulted_u32, unknown_errors,
    known_view, read_optional_text, read_defaulted_u32, push_unknown_errors, opt_text, merge_args, kept_by,
};
use crate::errors::{MacroError, MacroErrorV};
use crate::text::{unraw, unraw_ident, concat2, concat3, uppercase, to_uppercase};
use crate::ident::{formattable_ident, ident_formattable};
use crate::arguments::transform_macro_ident;
use crate::args::lemma_merge_has;
use crate::syntax::{
    Arg, Attribute, FnInput, ItemFn, TypeShape, attr_is, has_arg, contains_arg,
    attribute_is, find_attr, position_of_attr, first_match, lemma_first_match_unique,
    lemma_first_match_none, copy_arg, text_is,
};

verus! {

/// The shader stage of an entry point.
#[derive(Debug, Clone, Copy, PartialEq, Eq, Structural)]
pub enum Stage {
    Vertex,
    Fragment,
}

/// The settings of an entry point, from all its `#[spirv(..)]` attributes.
pub struct EntryAttributes {
    pub vertex: bool,
    pub fragment: bool,
}

/// The settings of one parameter, from its first `#[wgsl_gpu(..)]`.
pub struct FieldAttributes {
    /// The parameter is an argument struct, spread into its fields.
    pub arguments: bool,
    /// How its vertex buffer advances: `"vertex"` or `"instance"`.
    pub step_mode: Option<String>,
}

pub struct FieldAttributesV {
    pub arguments: bool,
    pub step_mode: Option<Seq<char>>,
}

impl View for FieldAttributes {
    type V = FieldAttributesV;

    open spec fn view(&self) -> FieldAttributesV {
        FieldAttributesV { arguments: self.arguments, step_mode: opt_text(self.step_mode) }
    }
}

/// The binding of a resource parameter, from its first `#[spirv(..)]`.
pub struct BindGroupAttributes {
    pub descriptor_set: u32,
    pub binding: u32,
    pub uniform: bool,
}

pub open spec fn entry_setting_names() -> Seq<Seq<char>> {
    seq!["vertex"@, "fragment"@]
}

pub open spec fn param_setting_names() -> Seq<Seq<char>> {
    seq!["arguments"@, "step_mode"@]
}

pub open spec fn bind_setting_names() -> Seq<Seq<char>> {
    seq!["descriptor_set"@, "binding"@, "uniform"@]
}

/// The entry point settings that `args` give.
pub open spec fn entry_settings(args: Seq<Arg>) -> Result<EntryAttributes, Seq<ArgErrorV>> {
    let errors = unknown_errors(args, entry_setting_names());
    if errors.len() == 0 {
        Ok(EntryAttributes { vertex: has_arg(args, "vertex"@), fragment: has_arg(args, "fragment"@) })
    } else {
        Err(errors)
    }
}

pub open spec fn param_settings_errors(args: Seq<Arg>) -> Seq<ArgErrorV> {
    error_of(optional_text(args, "step_mode"@)) + unknown_errors(args, param_setting_names())
}

/// The parameter settings that `args` give.
pub open spec fn param_settings(args: Seq<Arg>) -> Result<FieldAttributesV, Seq<ArgErrorV>> {
    if param_settings_errors(args).len() == 0 {
        Ok(
            FieldAttributesV {
                arguments: has_arg(args, "arguments"@),
                step_mode: optional_text(args, "step_mode"@)->Ok_0,
            },
        )
    } else {
        Err(param_settings_errors(args))
    }
}

pub open spec fn bind_settings_errors(args: Seq<Arg>) -> Seq<ArgErrorV> {
    error_of(defaulted_u32(args, "descriptor_set"@)) + error_of(defaulted_u32(args, "binding"@))
        + unknown_errors(args, bind_setting_names())
}

/// The binding settings that `args` give.
pub open spec fn bind_settings(args: Seq<Arg>) -> Result<BindGroupAttributes, Seq<ArgErrorV>> {
    if bind_settings_errors(args).len() == 0 {
        Ok(
            BindGroupAttributes {
                descriptor_set: defaulted_u32(args, "descriptor_set"@)->Ok_0,
                binding: defaulted_u32(args, "binding"@)->Ok_0,
                uniform: has_arg(args, "uniform"@),
            },
        )
    } else {
        Err(bind_settings_errors(args))
    }
}

impl EntryAttributes {
    /// Reads the entry point settings from the merged arguments of its attributes.
    pub fn from_args(args: &Vec<Arg>) -> (r: Result<Self, Vec<ArgError>>)
        ensures
            match r {
                Ok(v) => entry_settings(args@) == Ok::<EntryAttributes, Seq<ArgErrorV>>(v),
                Err(es) => entry_settings(args@) == Err::<EntryAttributes, Seq<ArgErrorV>>(
                    errors_view(es@),
                ),
            },
    {
        let mut errors: Vec<ArgError> = Vec::new();
        assert(errors_view(errors@) =~= seq![]);
        let vertex = contains_arg(args, "vertex");
        let fragment = contains_arg(args, "fragment");
        let known = ["vertex", "fragment"];
        assert(known_view(known@) =~= entry_setting_names());
        push_unknown_errors(args, known.as_slice(), &mut errors);
        assert(errors_view(errors@) =~= unknown_errors(args@, entry_setting_names()));
        if errors.len() > 0 {
            Err(errors)
        } else {
            Ok(EntryAttributes { vertex, fragment })
        }
    }
}

impl FieldAttributes {
    /// Reads the settings of a parameter from the arguments of its attribute.
    pub fn from_args(args: &Vec<Arg>) -> (r: Result<Self, Vec<ArgError>>)
        ensures
            match r {
                Ok(v) => param_settings(args@) == Ok::<FieldAttributesV, Seq<ArgErrorV>>(v@),
                Err(es) => param_settings(args@) == Err::<FieldAttributesV, Seq<ArgErrorV>>(
                    errors_view(es@),
                ),
            },
    {
        let mut errors: Vec<ArgError> = Vec::new();
        assert(errors_view(errors@) =~= seq![]);
        let arguments = contains_arg(args, "arguments");
        let step_mode = read_optional_text(args, "step_mode", &mut errors);
        let known = ["arguments", "step_mode"];
        assert(known_view(known@) =~= param_setting_names());
        push_unknown_errors(args, known.as_slice(), &mut errors);
        assert(errors_view(errors@) =~= param_settings_errors(args@));
        if errors.len() > 0 {
            Err(errors)
        } else {
            Ok(FieldAttributes { arguments, step_mode })
        }
    }
}

impl BindGroupAttributes {
    /// Reads the binding settings from the arguments of an attribute.
    pub fn from_args(args: &Vec<Arg>) -> (r: Result<Self, Vec<ArgError>>)
        ensures
            match r {
                Ok(v) => bind_settings(args@) == Ok::<BindGroupAttributes, Seq<ArgErrorV>>(v),
                Err(es) => bind_settings(args@) == Err::<BindGroupAttributes, Seq<ArgErrorV>>(
                    errors_view(es@),
                ),
            },
    {
        let mut errors: Vec<ArgError> = Vec::new();
        assert(errors_view(errors@) =~= seq![]);
        let descriptor_set = read_defaulted_u32(args, "descriptor_set", &mut errors);
        let binding = read_defaulted_u32(args, "binding", &mut errors);
        let uniform = contains_arg(args, "uniform");
        let known = ["descriptor_set", "binding", "uniform"];
        assert(known_view(known@) =~= bind_setting_names());
        push_unknown_errors(args, known.as_slice(), &mut errors);
        assert(errors_view(errors@) =~= bind_settings_errors(args@));
        if errors.len() > 0 {
            Err(errors)
        } else {
            Ok(BindGroupAttributes { descriptor_set, binding, uniform })
        }
    }
}

/// Merges two argument lists; `b` takes precedence where names clash.
pub fn merge(a: &Vec<Arg>, b: &Vec<Arg>) -> (r: Vec<Arg>)
    ensures
        r@ == merge_args(a@, b@),
{
    let mut r: Vec<Arg> = Vec::new();
    let mut i: usize = 0;
    proof {
        reveal(Seq::filter);
        assert(a@.subrange(0, 0) =~= Seq::<Arg>::empty());
    }
    while i < a.len()
        invariant
            i <= a.len(),
            r@ == a@.subrange(0, i as int).filter(kept_by(b@)),
        decreases a.len() - i,
    {
        let x = &a[i];
        let clash = match x {
            Arg::Flag(n) => contains_arg(b, n.as_str()),
            Arg::Expr(n, _) => contains_arg(b, n.as_str()),
            Arg::List(n) => contains_arg(b, n.as_str()),
            Arg::Lit(_) => false,
        };
        assert(kept_by(b@)(a@[i as int]) == !clash);
        proof {
            reveal(Seq::filter);
            assert(a@.subrange(0, i + 1).drop_last() =~= a@.subrange(0, i as int));
            assert(a@.subrange(0, i + 1).last() == a@[i as int]);
        }
        if !clash {
            r.push(copy_arg(x));
        }
        i = i + 1;
    }
    assert(a@.subrange(0, i as int) =~= a@);
    let ghost filtered = r@;
    let mut j: usize = 0;
    while j < b.len()
        invariant
            j <= b.len(),
            filtered == a@.filter(kept_by(b@)),
            r@ == filtered + b@.subrange(0, j as int),
        decreases b.len() - j,
    {
        r.push(copy_arg(&b[j]));
        assert(b@.subrange(0, j + 1) =~= b@.subrange(0, j as int).push(b@[j as int]));
        j = j + 1;
    }
    assert(b@.subrange(0, j as int) =~= b@);
    r
}

/// The arguments of all attributes named `name`, merged in order so that a
/// later attribute overrides an earlier one, or the message of the first of
/// them whose arguments could not be read.
pub open spec fn merged_args(attrs: Seq<Attribute>, name: Seq<char>) -> Result<Seq<Arg>, Seq<char>>
    decreases attrs.len(),
{
    if attrs.len() == 0 {
        Ok(seq![])
    } else {
        match merged_args(attrs.drop_last(), name) {
            Err(m) => Err(m),
            Ok(a) => if attr_is(attrs.last(), name) {
                match attrs.last().args {
                    Ok(v) => Ok(merge_args(a, v@)),
                    Err(m) => Err(m@),
                }
            } else {
                Ok(a)
            },
        }
    }
}

proof fn lemma_merged_err_extends(attrs: Seq<Attribute>, k: nat, name: Seq<char>)
    requires
        k <= attrs.len(),
    ensures
        merged_args(attrs.subrange(0, k as int), name) is Err ==> merged_args(attrs, name)
            == merged_args(attrs.subrange(0, k as int), name),
    decreases attrs.len() - k,
{
    if k < attrs.len() {
        lemma_merged_err_extends(attrs, k + 1, name);
        assert(attrs.subrange(0, (k + 1) as int).drop_last() =~= attrs.subrange(0, k as int));
    } else {
        assert(attrs.subrange(0, k as int) =~= attrs);
    }
}

/// Merges the arguments of all attributes named `name`.
pub fn merge_attribute_args(attrs: &Vec<Attribute>, name: &str) -> (r: Result<Vec<Arg>, String>)
    ensures
        match r {
            Ok(v) => merged_args(attrs@, name@) == Ok::<Seq<Arg>, Seq<char>>(v@),
            Err(m) => merged_args(attrs@, name@) == Err::<Seq<Arg>, Seq<char>>(m@),
        },
{
    let mut merged: Vec<Arg> = Vec::new();
    let mut i: usize = 0;
    assert(attrs@.subrange(0, 0) =~= Seq::<Attribute>::empty());
    while i < attrs.len()
        invariant
            i <= attrs.len(),
            merged_args(attrs@.subrange(0, i as int), name@) == Ok::<Seq<Arg>, Seq<char>>(merged@),
        decreases attrs.len() - i,
    {
        let ghost next = attrs@.subrange(0, i + 1);
        assert(next.drop_last() =~= attrs@.subrange(0, i as int));
        assert(next.last() == attrs@[i as int]);
        if attribute_is(&attrs[i], name) {
            match &attrs[i].args {
                Ok(v) => {
                    merged = merge(&merged, v);
                },
                Err(m) => {
                    proof {
                        lemma_merged_err_extends(attrs@, (i + 1) as nat, name@);
                    }
                    return Err(m.clone());
                },
            }
        }
        i = i + 1;
    }
    assert(attrs@.subrange(0, i as int) =~= attrs@);
    Ok(merged)
}

/// The settings of a parameter: none set when it has no `wgsl_gpu`
/// attribute, else those of the first one.
pub open spec fn param_settings_of(input: FnInput) -> Result<FieldAttributesV, MacroErrorV> {
    match input {
        FnInput::Typed(p) => match find_attr(p.attrs@, "wgsl_gpu"@) {
            None => Ok(FieldAttributesV { arguments: false, step_mode: None }),
            Some(i) => match p.attrs@[i].args {
                Err(m) => Err(MacroErrorV::Syntax(m@)),
                Ok(args) => match param_settings(args@) {
                    Ok(v) => Ok(v),
                    Err(es) => Err(MacroErrorV::Arguments(es)),
                },
            },
        },
        FnInput::Receiver => Ok(FieldAttributesV { arguments: false, step_mode: None }),
    }
}

/// The settings of all parameters, or the error of the first that fails.
pub open spec fn all_param_settings(inputs: Seq<FnInput>) -> Result<Seq<FieldAttributesV>, MacroErrorV>
    decreases inputs.len(),
{
    if inputs.len() == 0 {
        Ok(seq![])
    } else {
        match all_param_settings(inputs.drop_last()) {
            Err(e) => Err(e),
            Ok(vs) => match param_settings_of(inputs.last()) {
                Err(e) => Err(e),
                Ok(v) => Ok(vs.push(v)),
            },
        }
    }
}

proof fn lemma_all_params_err_extends(inputs: Seq<FnInput>, k: nat)
    requires
        k <= inputs.len(),
    ensures
        all_param_settings(inputs.subrange(0, k as int)) is Err ==> all_param_settings(inputs)
            == all_param_settings(inputs.subrange(0, k as int)),
    decreases inputs.len() - k,
{
    if k < inputs.len() {
        lemma_all_params_err_extends(inputs, k + 1);
        assert(inputs.subrange(0, (k + 1) as int).drop_last() =~= inputs.subrange(0, k as int));
    } else {
        assert(inputs.subrange(0, k as int) =~= inputs);
    }
}

pub proof fn lemma_all_params_len(inputs: Seq<FnInput>)
    ensures
        all_param_settings(inputs) matches Ok(vs) ==> vs.len() == inputs.len(),
    decreases inputs.len(),
{
    if inputs.len() > 0 {
        lemma_all_params_len(inputs.drop_last());
    }
}

pub open spec fn param_views(v: Seq<FieldAttributes>) -> Seq<FieldAttributesV> {
    v.map_values(|a: FieldAttributes| a@)
}

impl FieldAttributes {
    /// Reads the settings of every parameter; the first parameter whose
    /// settings cannot be read gives the error.
    pub fn parse(inputs: &Vec<FnInput>) -> (r: Result<Vec<Self>, MacroError>)
        ensures
            match r {
                Ok(v) => all_param_settings(inputs@) == Ok::<Seq<FieldAttributesV>, MacroErrorV>(
                    param_views(v@),
                ),
                Err(e) => all_param_settings(inputs@) == Err::<Seq<FieldAttributesV>, MacroErrorV>(e@),
            },
    {
        let mut out: Vec<Self> = Vec::new();
        let mut i: usize = 0;
        assert(inputs@.subrange(0, 0) =~= Seq::<FnInput>::empty());
        assert(param_views(out@) =~= Seq::<FieldAttributesV>::empty());
        while i < inputs.len()
            invariant
                i <= inputs.len(),
                all_param_settings(inputs@.subrange(0, i as int)) == Ok::<
                    Seq<FieldAttributesV>,
                    MacroErrorV,
                >(param_views(out@)),
            decreases inputs.len() - i,
        {
            let ghost next = inputs@.subrange(0, i + 1);
            assert(next.drop_last() =~= inputs@.subrange(0, i as int));
            assert(next.last() == inputs@[i as int]);
            let ghost one = param_settings_of(inputs@[i as int]);
            let step: Result<Self, MacroError> = match &inputs[i] {
                FnInput::Receiver => Ok(FieldAttributes { arguments: false, step_mode: None }),
                FnInput::Typed(p) => match position_of_attr(&p.attrs, "wgsl_gpu") {
                    None => Ok(FieldAttributes { arguments: false, step_mode: None }),
                    Some(k) => match &p.attrs[k].args {
                        Err(m) => Err(MacroError::Syntax(m.clone())),
                        Ok(args) => match Self::from_args(args) {
                            Ok(v) => Ok(v),
                            Err(es) => Err(MacroError::Arguments(es)),
                        },
                    },
                },
            };
            match step {
                Ok(v) => {
                    assert(one == Ok::<FieldAttributesV, MacroErrorV>(v@));
                    let ghost o0 = out@;
                    out.push(v);
                    assert(param_views(out@) =~= param_views(o0).push(v@));
                },
                Err(e) => {
                    assert(one == Err::<FieldAttributesV, MacroErrorV>(e@));
                    proof {
                        lemma_all_params_err_extends(inputs@, (i + 1) as nat);
                    }
                    return Err(e);
                },
            }
            i = i + 1;
        }
        assert(inputs@.subrange(0, i as int) =~= inputs@);
        Ok(out)
    }
}

pub open spec fn is_receiver() -> spec_fn(FnInput) -> bool {
    |i: FnInput| i is Receiver
}

/// What is read from an entry point before anything is generated: its stage
/// and the settings of its parameters.
pub struct EntryHeader {
    pub stage: Stage,
    pub fields_attributes: Vec<FieldAttributes>,
}

/// The stage and parameter settings of an entry point, or the first error:
/// its `spirv` attributes cannot be read or name no stage, a parameter is a
/// receiver, or a parameter's settings cannot be read.
pub open spec fn spec_entry_header(item: ItemFn) -> Result<(Stage, Seq<FieldAttributesV>), MacroErrorV> {
    match merged_args(item.attrs@, "spirv"@) {
        Err(m) => Err(MacroErrorV::Syntax(m)),
        Ok(args) => match entry_settings(args) {
            Err(es) => Err(MacroErrorV::Arguments(es)),
            Ok(s) => if !s.vertex && !s.fragment {
                Err(MacroErrorV::VertexOrFragmentRequired)
            } else {
                let stage = if s.vertex {
                    Stage::Vertex
                } else {
                    Stage::Fragment
                };
                match first_match(item.inputs@, is_receiver()) {
                    Some(k) => Err(MacroErrorV::SelfNotSupported(k as nat)),
                    None => match all_param_settings(item.inputs@) {
                        Err(e) => Err(e),
                        Ok(vs) => Ok((stage, vs)),
                    },
                }
            },
        },
    }
}

fn first_receiver(inputs: &Vec<FnInput>) -> (r: Option<usize>)
    ensures
        r matches Some(k) ==> first_match(inputs@, is_receiver()) == Some(k as int),
        r is None ==> first_match(inputs@, is_receiver()) is None,
{
    let mut i: usize = 0;
    while i < inputs.len()
        invariant
            i <= inputs.len(),
            forall|j: int| 0 <= j < i ==> !is_receiver()(#[trigger] inputs@[j]),
        decreases inputs.len() - i,
    {
        let hit = match &inputs[i] {
            FnInput::Receiver => true,
            FnInput::Typed(_) => false,
        };
        assert(is_receiver()(inputs@[i as int]) == hit);
        if hit {
            proof {
                lemma_first_match_unique(inputs@, is_receiver(), i as int);
            }
            return Some(i);
        }
        i = i + 1;
    }
    proof {
        lemma_first_match_none(inputs@, is_receiver());
    }
    None
}

/// Reads the stage of an entry point and the settings of its parameters.
pub fn entry_header(item: &ItemFn) -> (r: Result<EntryHeader, MacroError>)
    ensures
        match r {
            Ok(h) => spec_entry_header(*item) == Ok::<(Stage, Seq<FieldAttributesV>), MacroErrorV>(
                (h.stage, param_views(h.fields_attributes@)),
            ),
            Err(e) => spec_entry_header(*item) == Err::<(Stage, Seq<FieldAttributesV>), MacroErrorV>(e@),
        },
{
    let args = match merge_attribute_args(&item.attrs, "spirv") {
        Ok(v) => v,
        Err(m) => {
            return Err(MacroError::Syntax(m));
        },
    };
    let attr = match EntryAttributes::from_args(&args) {
        Ok(v) => v,
        Err(es) => {
            return Err(MacroError::Arguments(es));
        },
    };
    let stage = if attr.vertex {
        Stage::Vertex
    } else if attr.fragment {
        Stage::Fragment
    } else {
        return Err(MacroError::VertexOrFragmentRequired);
    };
    if let Some(k) = first_receiver(&item.inputs) {
        return Err(MacroError::SelfNotSupported(k));
    }
    match FieldAttributes::parse(&item.inputs) {
        Ok(fields_attributes) => Ok(EntryHeader { stage, fields_attributes }),
        Err(e) => Err(e),
    }
}

/// The transform macro named by a type: a path type names the macro whose
/// name is that of its last segment wrapped in `wgsl_gpu_.._transform` (a
/// path without segments stays as it is: `None`); any other type is an error.
pub open spec fn spec_transform_macro_name(ty: TypeShape) -> Result<Option<Seq<char>>, MacroErrorV> {
    match ty {
        TypeShape::Path(segs) => if segs@.len() == 0 {
            Ok(None)
        } else {
            Ok(Some(transform_macro_ident(segs@.last()@)))
        },
        _ => Err(MacroErrorV::ReturnTypeNotPath),
    }
}

pub open spec fn macro_name_view(r: Result<Option<String>, MacroError>) -> Result<Option<Seq<char>>, MacroErrorV> {
    match r {
        Ok(o) => Ok(opt_text(o)),
        Err(e) => Err(e@),
    }
}

/// The new last segment of the path that names the transform macro of `ty`.
pub fn transform_macro_name(ty: &TypeShape) -> (r: Result<Option<String>, MacroError>)
    ensures
        macro_name_view(r) == spec_transform_macro_name(*ty),
{
    match ty {
        TypeShape::Path(segs) => {
            if segs.len() == 0 {
                Ok(None)
            } else {
                let bare = unraw_ident(&segs[segs.len() - 1]);
                Ok(Some(concat3("wgsl_gpu_", bare.as_str(), "_transform")))
            }
        },
        _ => Err(MacroError::ReturnTypeNotPath),
    }
}

/// An attribute that the generated code keeps on the user's function: any
/// but `spirv` and `wgsl_gpu`.
pub open spec fn kept_on_item(a: Attribute) -> bool {
    !attr_is(a, "spirv"@) && !attr_is(a, "wgsl_gpu"@)
}

/// For each attribute, whether it is kept on the user's function.
pub fn item_keep_mask(attrs: &Vec<Attribute>) -> (r: Vec<bool>)
    ensures
        r@.len() == attrs@.len(),
        forall|i: int| 0 <= i < attrs@.len() ==> r@[i] == kept_on_item(#[trigger] attrs@[i]),
{
    let mut r: Vec<bool> = Vec::new();
    let mut i: usize = 0;
    while i < attrs.len()
        invariant
            i <= attrs.len(),
            r@.len() == i,
            forall|j: int| 0 <= j < i ==> r@[j] == kept_on_item(#[trigger] attrs@[j]),
        decreases attrs.len() - i,
    {
        r.push(!attribute_is(&attrs[i], "spirv") && !attribute_is(&attrs[i], "wgsl_gpu"));
        i = i + 1;
    }
    r
}

/// For each attribute, whether its path is `name`.
pub fn named_mask(attrs: &Vec<Attribute>, name: &str) -> (r: Vec<bool>)
    ensures
        r@.len() == attrs@.len(),
        forall|i: int| 0 <= i < attrs@.len() ==> r@[i] == attr_is(#[trigger] attrs@[i], name@),
{
    let mut r: Vec<bool> = Vec::new();
    let mut i: usize = 0;
    while i < attrs.len()
        invariant
            i <= attrs.len(),
            r@.len() == i,
            forall|j: int| 0 <= j < i ==> r@[j] == attr_is(#[trigger] attrs@[j], name@),
        decreases attrs.len() - i,
    {
        r.push(attribute_is(&attrs[i], name));
        i = i + 1;
    }
    r
}

/// The user's function as it is emitted again: which attributes it keeps,
/// and which each parameter keeps (a receiver keeps its own).
pub struct FilteredInput {
    pub attrs: Vec<bool>,
    pub inputs: Vec<Option<Vec<bool>>>,
}

pub open spec fn keep_mask_ok(mask: Seq<bool>, attrs: Seq<Attribute>) -> bool {
    &&& mask.len() == attrs.len()
    &&& forall|i: int| 0 <= i < attrs.len() ==> mask[i] == kept_on_item(#[trigger] attrs[i])
}

pub open spec fn filtered_ok(f: FilteredInput, item: ItemFn) -> bool {
    &&& keep_mask_ok(f.attrs@, item.attrs@)
    &&& f.inputs@.len() == item.inputs@.len()
    &&& forall|i: int|
        0 <= i < item.inputs@.len() ==> match #[trigger] item.inputs@[i] {
            FnInput::Receiver => f.inputs@[i] is None,
            FnInput::Typed(p) => f.inputs@[i] matches Some(m) && keep_mask_ok(m@, p.attrs@),
        }
}

/// Drops the `spirv` and `wgsl_gpu` attributes from the user's function and
/// from its parameters.
pub fn filtered_input(item: &ItemFn) -> (r: FilteredInput)
    ensures
        filtered_ok(r, *item),
{
    let attrs = item_keep_mask(&item.attrs);
    let mut inputs: Vec<Option<Vec<bool>>> = Vec::new();
    let mut i: usize = 0;
    while i < item.inputs.len()
        invariant
            i <= item.inputs@.len(),
            inputs@.len() == i,
            forall|j: int|
                0 <= j < i ==> match #[trigger] item.inputs@[j] {
                    FnInput::Receiver => inputs@[j] is None,
                    FnInput::Typed(p) => inputs@[j] matches Some(m) && keep_mask_ok(m@, p.attrs@),
                },
        decreases item.inputs@.len() - i,
    {
        match &item.inputs[i] {
            FnInput::Receiver => inputs.push(None),
            FnInput::Typed(p) => inputs.push(Some(item_keep_mask(&p.attrs))),
        }
        i = i + 1;
    }
    FilteredInput { attrs, inputs }
}

/// The attributes that a mask of the same length selects, in order: what is
/// emitted again from a keep mask.
pub open spec fn select(attrs: Seq<Attribute>, mask: Seq<bool>) -> Seq<Attribute>
    decreases attrs.len(),
{
    if attrs.len() == 0 || mask.len() == 0 {
        seq![]
    } else {
        let rest = select(attrs.drop_last(), mask.drop_last());
        if mask.last() {
            rest.push(attrs.last())
        } else {
            rest
        }
    }
}

/// No attribute of `attrs` is one of the generator's own.
pub open spec fn clean(attrs: Seq<Attribute>) -> bool {
    forall|j: int| 0 <= j < attrs.len() ==> kept_on_item(#[trigger] attrs[j])
}

proof fn lemma_select_clean(attrs: Seq<Attribute>, mask: Seq<bool>)
    requires
        keep_mask_ok(mask, attrs),
    ensures
        clean(select(attrs, mask)),
    decreases attrs.len(),
{
    if attrs.len() > 0 {
        let ra = attrs.drop_last();
        let rm = mask.drop_last();
        assert forall|i: int| 0 <= i < ra.len() implies rm[i] == kept_on_item(#[trigger] ra[i]) by {
            assert(ra[i] == attrs[i]);
        }
        lemma_select_clean(ra, rm);
        assert(mask.last() == kept_on_item(attrs.last())) by {
            assert(attrs[attrs.len() - 1] == attrs.last());
        }
        let r = select(ra, rm);
        if mask.last() {
            assert forall|j: int| 0 <= j < r.push(attrs.last()).len() implies kept_on_item(#[trigger] r.push(attrs.last())[j]) by {
                if j < r.len() {
                    assert(r.push(attrs.last())[j] == r[j]);
                }
            }
        }
    }
}

proof fn lemma_select_all(attrs: Seq<Attribute>, mask: Seq<bool>)
    requires
        mask.len() == attrs.len(),
        forall|i: int| 0 <= i < mask.len() ==> #[trigger] mask[i],
    ensures
        select(attrs, mask) == attrs,
    decreases attrs.len(),
{
    if attrs.len() > 0 {
        let ra = attrs.drop_last();
        let rm = mask.drop_last();
        assert forall|i: int| 0 <= i < rm.len() implies #[trigger] rm[i] by {
            assert(rm[i] == mask[i]);
        }
        lemma_select_all(ra, rm);
        assert(mask[mask.len() - 1]);
        assert(ra.push(attrs.last()) =~= attrs);
    }
}

/// Emitting attributes again is idempotent: what a keep mask selects holds
/// none of the generator's attributes, so filtering it once more keeps it
/// whole.
pub proof fn lemma_filter_idempotent(attrs: Seq<Attribute>, mask: Seq<bool>, again: Seq<bool>)
    requires
        keep_mask_ok(mask, attrs),
        keep_mask_ok(again, select(attrs, mask)),
    ensures
        clean(select(attrs, mask)),
        forall|j: int| 0 <= j < again.len() ==> #[trigger] again[j],
        select(select(attrs, mask), again) == select(attrs, mask),
{
    lemma_select_clean(attrs, mask);
    let s = select(attrs, mask);
    assert forall|j: int| 0 <= j < again.len() implies #[trigger] again[j] by {
        assert(kept_on_item(s[j]));
    }
    lemma_select_all(s, again);
}

/// The function that `filtered_input` emits again carries no `spirv` or
/// `wgsl_gpu` attribute, neither on itself nor on any parameter; so filtering
/// it again emits it unchanged (`lemma_filter_idempotent`).
pub proof fn lemma_filtered_input_clean(item: ItemFn, f: FilteredInput)
    requires
        filtered_ok(f, item),
    ensures
        clean(select(item.attrs@, f.attrs@)),
        forall|i: int|
            0 <= i < item.inputs@.len() ==> match #[trigger] item.inputs@[i] {
                FnInput::Typed(p) => f.inputs@[i] matches Some(m) && clean(select(p.attrs@, m@)),
                FnInput::Receiver => f.inputs@[i] is None,
            },
{
    lemma_select_clean(item.attrs@, f.attrs@);
    assert forall|i: int|
        0 <= i < item.inputs@.len() implies match #[trigger] item.inputs@[i] {
            FnInput::Typed(p) => f.inputs@[i] matches Some(m) && clean(select(p.attrs@, m@)),
            FnInput::Receiver => f.inputs@[i] is None,
        } by {
        if let FnInput::Typed(p) = item.inputs@[i] {
            let m = f.inputs@[i]->Some_0;
            lemma_select_clean(p.attrs@, m@);
        }
    }
}

/// The attributes that a function carries: its own, and for each parameter
/// its own (`None` for a receiver).
pub open spec fn carried(item: ItemFn) -> (Seq<Attribute>, Seq<Option<Seq<Attribute>>>) {
    (
        item.attrs@,
        Seq::new(
            item.inputs@.len(),
            |i: int|
                match item.inputs@[i] {
                    FnInput::Receiver => None,
                    FnInput::Typed(p) => Some(p.attrs@),
                },
        ),
    )
}

/// The attributes that the function emitted again from `item` carries under
/// the keep masks `f`.
pub open spec fn emitted(item: ItemFn, f: FilteredInput) -> (Seq<Attribute>, Seq<Option<Seq<Attribute>>>) {
    (
        select(item.attrs@, f.attrs@),
        Seq::new(
            item.inputs@.len(),
            |i: int|
                match item.inputs@[i] {
                    FnInput::Receiver => None,
                    FnInput::Typed(p) => Some(select(p.attrs@, f.inputs@[i]->Some_0@)),
                },
        ),
    )
}

/// Filtering is idempotent: when `g` is the function that `filtered_input`
/// emits for `item` (same parameters, carrying what the masks `f` keep), the
/// masks `filtered_input` gives for `g` keep every attribute of `g`, so `g` is
/// emitted again unchanged.
pub proof fn lemma_filtered_input_idempotent(item: ItemFn, f: FilteredInput, g: ItemFn, f2: FilteredInput)
    requires
        filtered_ok(f, item),
        carried(g) == emitted(item, f),
        filtered_ok(f2, g),
    ensures
        emitted(g, f2) == carried(g),
{
    lemma_filter_idempotent(item.attrs@, f.attrs@, f2.attrs@);
    let n = g.inputs@.len();
    let c = carried(g);
    let e = emitted(item, f);
    assert(c.1 == e.1);
    assert(c.1.len() == n);
    assert(e.1.len() == item.inputs@.len());
    assert forall|i: int| 0 <= i < n implies #[trigger] emitted(g, f2).1[i] == carried(g).1[i] by {
        assert(carried(g).1[i] == emitted(item, f).1[i]);
        match item.inputs@[i] {
            FnInput::Receiver => {
                assert(g.inputs@[i] is Receiver);
            },
            FnInput::Typed(p) => {
                let m = f.inputs@[i]->Some_0;
                let q = g.inputs@[i]->Typed_0;
                assert(g.inputs@[i] is Typed);
                assert(q.attrs@ == select(p.attrs@, m@));
                let m2 = f2.inputs@[i]->Some_0;
                lemma_filter_idempotent(p.attrs@, m@, m2@);
            },
        }
    }
    assert(emitted(g, f2).1 =~= carried(g).1);
}

/// How a step of the vertex buffer advances.
#[derive(Debug, Clone, Copy, PartialEq, Eq, Structural)]
pub enum StepMode {
    Vertex,
    Instance,
}

/// One vertex buffer: that of the parameter at index `input`.
#[derive(Debug, Clone, Copy, PartialEq, Eq, Structural)]
pub struct VertexBufferEntry {
    pub input: usize,
    pub step_mode: StepMode,
}

/// The vertex buffers of the argument-struct parameters, in order: a
/// parameter without step mode is left out while no buffer was listed yet,
/// and is an error after one; a step mode other than `vertex` or `instance`
/// is an error.
#[verifier::opaque]
pub open spec fn layout_entries(fa: Seq<FieldAttributesV>) -> Result<Seq<VertexBufferEntry>, MacroErrorV>
    decreases fa.len(),
{
    if fa.len() == 0 {
        Ok(seq![])
    } else {
        match layout_entries(fa.drop_last()) {
            Err(e) => Err(e),
            Ok(es) => {
                let a = fa.last();
                let i = (fa.len() - 1) as usize;
                if !a.arguments {
                    Ok(es)
                } else {
                    match a.step_mode {
                        None => if es.len() > 0 {
                            Err(MacroErrorV::StepModeMismatch)
                        } else {
                            Ok(es)
                        },
                        Some(m) => if m == "vertex"@ {
                            Ok(es.push(VertexBufferEntry { input: i, step_mode: StepMode::Vertex }))
                        } else if m == "instance"@ {
                            Ok(
                                es.push(
                                    VertexBufferEntry { input: i, step_mode: StepMode::Instance },
                                ),
                            )
                        } else {
                            Err(MacroErrorV::InvalidStepMode)
                        },
                    }
                }
            },
        }
    }
}

proof fn lemma_layout_err_extends(fa: Seq<FieldAttributesV>, k: nat)
    requires
        k <= fa.len(),
    ensures
        layout_entries(fa.subrange(0, k as int)) is Err ==> layout_entries(fa) == layout_entries(
            fa.subrange(0, k as int),
        ),
    decreases fa.len() - k,
{
    reveal_with_fuel(layout_entries, 2);
    if k < fa.len() {
        lemma_layout_err_extends(fa, k + 1);
        assert(fa.subrange(0, (k + 1) as int).drop_last() =~= fa.subrange(0, k as int));
    } else {
        assert(fa.subrange(0, k as int) =~= fa);
    }
}

/// The vertex buffer layouts of an entry point, under the constant
/// `const_name`.
pub struct VertexBufferPlan {
    pub const_name: String,
    pub entries: Vec<VertexBufferEntry>,
}

/// The vertex buffer layouts of the entry point whose upper-case name is
/// `name_upper`, from the settings of its parameters.
pub fn vertex_buffer_layout(name_upper: &String, fields_attributes: &Vec<FieldAttributes>) -> (r: Result<
    VertexBufferPlan,
    MacroError,
>)
    ensures
        match r {
            Ok(p) => layout_entries(param_views(fields_attributes@)) == Ok::<
                Seq<VertexBufferEntry>,
                MacroErrorV,
            >(p.entries@) && p.const_name@ == name_upper@ + "_VERTEX_BUFFER_LAYOUTS"@,
            Err(e) => layout_entries(param_views(fields_attributes@)) == Err::<
                Seq<VertexBufferEntry>,
                MacroErrorV,
            >(e@),
        },
{
    let ghost fa = param_views(fields_attributes@);
    reveal_with_fuel(layout_entries, 2);
    let mut entries: Vec<VertexBufferEntry> = Vec::new();
    let mut i: usize = 0;
    assert(fa.subrange(0, 0) =~= Seq::<FieldAttributesV>::empty());
    while i < fields_attributes.len()
        invariant
            i <= fields_attributes@.len(),
            fa == param_views(fields_attributes@),
            layout_entries(fa.subrange(0, i as int)) == Ok::<Seq<VertexBufferEntry>, MacroErrorV>(
                entries@,
            ),
        decreases fields_attributes@.len() - i,
    {
        reveal_with_fuel(layout_entries, 2);
        let ghost next = fa.subrange(0, i + 1);
        assert(next.drop_last() =~= fa.subrange(0, i as int));
        assert(next.last() == fields_attributes@[i as int]@);
        let attr = &fields_attributes[i];
        if attr.arguments {
            match &attr.step_mode {
                None => {
                    if entries.len() > 0 {
                        proof {
                            lemma_layout_err_extends(fa, (i + 1) as nat);
                        }
                        return Err(MacroError::StepModeMismatch);
                    }
                },
                Some(m) => {
                    if text_is(m, "vertex") {
                        entries.push(VertexBufferEntry { input: i, step_mode: StepMode::Vertex });
                    } else if text_is(m, "instance") {
                        entries.push(VertexBufferEntry { input: i, step_mode: StepMode::Instance });
                    } else {
                        proof {
                            lemma_layout_err_extends(fa, (i + 1) as nat);
                        }
                        return Err(MacroError::InvalidStepMode);
                    }
                },
            }
        }
        i = i + 1;
    }
    assert(fa.subrange(0, i as int) =~= fa);
    let mut const_name = name_upper.clone();
    const_name.append("_VERTEX_BUFFER_LAYOUTS");
    Ok(VertexBufferPlan { const_name, entries })
}

/// The kind of resource bound at a binding.
#[derive(Debug, Clone, Copy, PartialEq, Eq, Structural)]
pub enum BindingType {
    /// A uniform buffer without dynamic offset.
    UniformBuffer,
    /// A filtering sampler.
    FilteringSampler,
    /// A filterable float texture of two dimensions, not multisampled.
    FloatTexture2d,
}

/// The resource a parameter of type `ty` binds: a uniform buffer when marked
/// `uniform`, else by the type behind any references: `Sampler` binds a
/// sampler and an image macro a texture.
pub open spec fn spec_binding_type(uniform: bool, ty: TypeShape) -> Result<BindingType, MacroErrorV>
    decreases ty,
{
    if uniform {
        Ok(BindingType::UniformBuffer)
    } else {
        match ty {
            TypeShape::Reference(inner) => spec_binding_type(uniform, *inner),
            TypeShape::Path(segs) => if segs@.len() > 0 && segs@.last()@ == "Sampler"@ {
                Ok(BindingType::FilteringSampler)
            } else {
                Err(MacroErrorV::UnknownBindingType)
            },
            TypeShape::Macro => Ok(BindingType::FloatTexture2d),
            _ => Err(MacroErrorV::UnknownBindingType),
        }
    }
}

pub open spec fn binding_result_view(r: Result<BindingType, MacroError>) -> Result<BindingType, MacroErrorV> {
    match r {
        Ok(t) => Ok(t),
        Err(e) => Err(e@),
    }
}

/// The resource that a parameter of type `ty` with binding settings `attr`
/// binds.
pub fn bind_group_wgpu_type(attr: &BindGroupAttributes, ty: &TypeShape) -> (r: Result<BindingType, MacroError>)
    ensures
        binding_result_view(r) == spec_binding_type(attr.uniform, *ty),
    decreases ty,
{
    if attr.uniform {
        return Ok(BindingType::UniformBuffer);
    }
    match ty {
        TypeShape::Reference(inner) => bind_group_wgpu_type(attr, &**inner),
        TypeShape::Path(segs) => {
            if segs.len() > 0 && text_is(&segs[segs.len() - 1], "Sampler") {
                Ok(BindingType::FilteringSampler)
            } else {
                Err(MacroError::UnknownBindingType)
            }
        },
        TypeShape::Macro => Ok(BindingType::FloatTexture2d),
        _ => Err(MacroError::UnknownBindingType),
    }
}

/// The binding settings of a parameter: those of its first `spirv`
/// attribute, if they can be read; parameters whose first `spirv` attribute
/// names no binding (such as `vertex_index`) bind nothing.
pub open spec fn bind_of(input: FnInput) -> Option<BindGroupAttributes> {
    match input {
        FnInput::Typed(p) => match find_attr(p.attrs@, "spirv"@) {
            Some(i) => match p.attrs@[i].args {
                Ok(v) => match bind_settings(v@) {
                    Ok(b) => Some(b),
                    Err(_) => None,
                },
                Err(_) => None,
            },
            None => None,
        },
        FnInput::Receiver => None,
    }
}

pub open spec fn type_of(input: FnInput) -> TypeShape {
    match input {
        FnInput::Typed(p) => p.ty,
        FnInput::Receiver => TypeShape::Other,
    }
}

/// An edit of the bind group table: the entry at `binding` binds `ty`.
pub struct BindingEdit {
    pub binding: u32,
    pub ty: Result<BindingType, MacroError>,
}

pub open spec fn edit_view(e: BindingEdit) -> (u32, Result<BindingType, MacroErrorV>) {
    (e.binding, binding_result_view(e.ty))
}

pub open spec fn edits_view(es: Seq<BindingEdit>) -> Seq<(u32, Result<BindingType, MacroErrorV>)> {
    es.map_values(|e: BindingEdit| edit_view(e))
}

/// The edits of descriptor set `set`, in the order of the parameters.
pub open spec fn set_edits(inputs: Seq<FnInput>, set: nat) -> Seq<(u32, Result<BindingType, MacroErrorV>)>
    decreases inputs.len(),
{
    if inputs.len() == 0 {
        seq![]
    } else {
        let rest = set_edits(inputs.drop_last(), set);
        match bind_of(inputs.last()) {
            Some(b) => if b.descriptor_set == set {
                rest.push((b.binding, spec_binding_type(b.uniform, type_of(inputs.last()))))
            } else {
                rest
            },
            None => rest,
        }
    }
}

/// The number of descriptor sets that the bind group table has room for.
pub const MAX_SETS: usize = 8;

/// Every binding parameter names a descriptor set the table has room for.
pub open spec fn bind_sets_in_range(inputs: Seq<FnInput>) -> bool {
    forall|i: int|
        0 <= i < inputs.len() ==> (bind_of(#[trigger] inputs[i]) matches Some(b) ==> b.descriptor_set
            < MAX_SETS)
}

fn binding_of(input: &FnInput) -> (r: Option<BindGroupAttributes>)
    ensures
        r == bind_of(*input),
{
    match input {
        FnInput::Typed(p) => match position_of_attr(&p.attrs, "spirv") {
            Some(i) => match &p.attrs[i].args {
                Ok(v) => match BindGroupAttributes::from_args(v) {
                    Ok(b) => Some(b),
                    Err(_) => None,
                },
                Err(_) => None,
            },
            None => None,
        },
        FnInput::Receiver => None,
    }
}

/// Whether every binding parameter names a descriptor set the table has
/// room for.
pub fn bind_sets_fit(inputs: &Vec<FnInput>) -> (b: bool)
    ensures
        b == bind_sets_in_range(inputs@),
{
    let mut i: usize = 0;
    while i < inputs.len()
        invariant
            i <= inputs@.len(),
            forall|j: int|
                0 <= j < i ==> (bind_of(#[trigger] inputs@[j]) matches Some(b) ==> b.descriptor_set < MAX_SETS),
        decreases inputs@.len() - i,
    {
        if let Some(b) = binding_of(&inputs[i]) {
            if b.descriptor_set >= 8 {
                return false;
            }
        }
        i = i + 1;
    }
    true
}

fn edits_of_set(inputs: &Vec<FnInput>, set: u32) -> (r: Vec<BindingEdit>)
    ensures
        edits_view(r@) == set_edits(inputs@, set as nat),
{
    let mut r: Vec<BindingEdit> = Vec::new();
    let mut i: usize = 0;
    assert(inputs@.subrange(0, 0) =~= Seq::<FnInput>::empty());
    assert(edits_view(r@) =~= seq![]);
    while i < inputs.len()
        invariant
            i <= inputs@.len(),
            edits_view(r@) == set_edits(inputs@.subrange(0, i as int), set as nat),
        decreases inputs@.len() - i,
    {
        let ghost next = inputs@.subrange(0, i + 1);
        assert(next.drop_last() =~= inputs@.subrange(0, i as int));
        assert(next.last() == inputs@[i as int]);
        let ghost r0 = r@;
        match binding_of(&inputs[i]) {
            Some(b) => {
                if b.descriptor_set == set {
                    let ty = match &inputs[i] {
                        FnInput::Typed(p) => bind_group_wgpu_type(&b, &p.ty),
                        FnInput::Receiver => bind_group_wgpu_type(&b, &TypeShape::Other),
                    };
                    let e = BindingEdit { binding: b.binding, ty };
                    r.push(e);
                    assert(edits_view(r@) =~= edits_view(r0).push(edit_view(e)));
                }
            },
            None => {},
        }
        i = i + 1;
    }
    assert(inputs@.subrange(0, i as int) =~= inputs@);
    r
}

/// The bind group table of one entry point: for each of the `MAX_SETS`
/// descriptor sets the edits its parameters make, and the largest number of
/// edits of a set, with the stage that sees the bindings.
pub struct BindGroupsPlan {
    pub macro_name: String,
    pub stage: Stage,
    pub total: usize,
    pub sets: Vec<Vec<BindingEdit>>,
}

pub open spec fn bind_groups_ok(p: BindGroupsPlan, ident: Seq<char>, inputs: Seq<FnInput>, stage: Stage) -> bool {
    &&& p.macro_name@ == "wgsl_gpu_"@ + unraw(ident) + "_bind_groups_macro"@
    &&& p.stage == stage
    &&& p.sets@.len() == MAX_SETS
    &&& forall|s: int| 0 <= s < MAX_SETS ==> edits_view((#[trigger] p.sets@[s])@) == set_edits(inputs, s as nat)
    &&& forall|s: int| 0 <= s < MAX_SETS ==> (#[trigger] p.sets@[s])@.len() <= p.total
    &&& exists|s: int| 0 <= s < MAX_SETS && (#[trigger] p.sets@[s])@.len() == p.total
}

/// The bind group table of the entry point named `ident`.
pub fn bind_groups(ident: &String, inputs: &Vec<FnInput>, stage: Stage) -> (r: BindGroupsPlan)
    requires
        bind_sets_in_range(inputs@),
    ensures
        bind_groups_ok(r, ident@, inputs@, stage),
{
    let mut sets: Vec<Vec<BindingEdit>> = Vec::new();
    let mut total: usize = 0;
    let mut s: u32 = 0;
    while s < 8
        invariant
            s <= 8,
            sets@.len() == s,
            forall|t: int| 0 <= t < s ==> edits_view((#[trigger] sets@[t])@) == set_edits(inputs@, t as nat),
            forall|t: int| 0 <= t < s ==> (#[trigger] sets@[t])@.len() <= total,
            s == 0 ==> total == 0,
            s > 0 ==> exists|t: int| 0 <= t < s && (#[trigger] sets@[t])@.len() == total,
        decreases 8 - s,
    {
        let edits = edits_of_set(inputs, s);
        let ghost old_sets = sets@;
        let ghost old_total = total;
        let grows = edits.len() > total || s == 0;
        if grows {
            total = edits.len();
        }
        let ghost e = edits@;
        sets.push(edits);
        assert(sets@[s as int]@ == e);
        assert(forall|t: int| 0 <= t < s ==> sets@[t] == old_sets[t]);
        if grows {
            assert(sets@[s as int]@.len() == total);
        } else {
            proof {
                let w = choose|t: int| 0 <= t < s && (#[trigger] old_sets[t])@.len() == old_total;
                assert(sets@[w]@.len() == total);
            }
        }
        s = s + 1;
    }
    let bare = unraw_ident(ident);
    let macro_name = concat3("wgsl_gpu_", bare.as_str(), "_bind_groups_macro");
    let r = BindGroupsPlan { macro_name, stage, total, sets };
    assert(r.sets@.len() == MAX_SETS);
    assert(exists|t: int| 0 <= t < MAX_SETS && (#[trigger] r.sets@[t])@.len() == r.total);
    r
}

/// How a parameter is passed to the GPU wrapper: kept as it is
/// (`expand` is `None`), or spread by the transform macro of its type; with
/// the attributes it keeps (all but `wgsl_gpu`).
pub struct MacroArg {
    pub expand: Option<Result<Option<String>, MacroError>>,
    pub attrs: Vec<bool>,
}

pub open spec fn macro_arg_ok(m: MacroArg, input: FnInput, fa: FieldAttributesV) -> bool {
    &&& fa.arguments ==> (m.expand matches Some(r) && macro_name_view(r) == spec_transform_macro_name(
        type_of(input),
    ))
    &&& !fa.arguments ==> m.expand is None
    &&& input matches FnInput::Typed(p) ==> {
        &&& m.attrs@.len() == p.attrs@.len()
        &&& forall|j: int| 0 <= j < p.attrs@.len() ==> m.attrs@[j] == !attr_is(#[trigger] p.attrs@[j], "wgsl_gpu"@)
    }
}

/// Everything generated for an entry point.
pub struct EntryPlan {
    pub stage: Stage,
    /// The user's function, emitted again without the generator's attributes.
    pub filtered: FilteredInput,
    /// Which attributes of the function (the `spirv` ones) go on the wrapper.
    pub wrapper_attrs: Vec<bool>,
    /// The name of the GPU wrapper.
    pub gpu_name: String,
    /// How each parameter is passed to the wrapper.
    pub macro_args: Vec<MacroArg>,
    /// The transform macro of the return type, which writes the outputs.
    pub ret_macro: Result<Option<String>, MacroError>,
    /// The constant that holds the wrapper's name.
    pub const_name: String,
    pub vertex_buffers: Result<VertexBufferPlan, MacroError>,
    pub bind_groups: BindGroupsPlan,
}

/// The entry point can be generated: once its header reads, the names of
/// the generated constants are identifiers, it has a return type, and every
/// binding names a descriptor set the table has room for (else generation
/// panics: in `format_ident!`, with "return type required", or with an index
/// out of bounds of the table).
pub open spec fn entry_supported(item: ItemFn) -> bool {
    spec_entry_header(item) matches Ok((_, vs)) ==> {
        &&& ident_formattable(name_const(item))
        &&& item.output is Some
        &&& layout_entries(vs) is Ok ==> ident_formattable(layouts_const(item))
        &&& bind_sets_in_range(item.inputs@)
    }
}

pub open spec fn entry_plan_ok(p: EntryPlan, item: ItemFn, stage: Stage, vs: Seq<FieldAttributesV>) -> bool {
    &&& p.stage == stage
    &&& filtered_ok(p.filtered, item)
    &&& p.wrapper_attrs@.len() == item.attrs@.len()
    &&& forall|i: int| 0 <= i < item.attrs@.len() ==> p.wrapper_attrs@[i] == attr_is(#[trigger] item.attrs@[i], "spirv"@)
    &&& p.gpu_name@ == unraw(item.ident@) + "_gpu"@
    &&& p.macro_args@.len() == item.inputs@.len()
    &&& forall|i: int| 0 <= i < item.inputs@.len() ==> macro_arg_ok(#[trigger] p.macro_args@[i], item.inputs@[i], vs[i])
    &&& item.output matches Some(ty) && macro_name_view(p.ret_macro) == spec_transform_macro_name(ty)
    &&& p.const_name@ == uppercase(item.ident@) + "_NAME"@
    &&& match p.vertex_buffers {
        Ok(v) => layout_entries(vs) == Ok::<Seq<VertexBufferEntry>, MacroErrorV>(v.entries@)
            && v.const_name@ == uppercase(item.ident@) + "_VERTEX_BUFFER_LAYOUTS"@,
        Err(e) => layout_entries(vs) == Err::<Seq<VertexBufferEntry>, MacroErrorV>(e@),
    }
    &&& bind_groups_ok(p.bind_groups, item.ident@, item.inputs@, stage)
}

/// Everything generated for the entry point `item`, or the first error met
/// while reading its header.
pub fn entry_generation(item: &ItemFn) -> (r: Result<EntryPlan, MacroError>)
    requires
        entry_supported(*item),
    ensures
        match r {
            Err(e) => spec_entry_header(*item) == Err::<(Stage, Seq<FieldAttributesV>), MacroErrorV>(e@),
            Ok(p) => spec_entry_header(*item) matches Ok((stage, vs)) && entry_plan_ok(p, *item, stage, vs),
        },
{
    let header = match entry_header(item) {
        Ok(h) => h,
        Err(e) => {
            return Err(e);
        },
    };
    let ghost vs = param_views(header.fields_attributes@);
    proof {
        lemma_all_params_len(item.inputs@);
    }
    let mut macro_args: Vec<MacroArg> = Vec::new();
    let mut i: usize = 0;
    while i < item.inputs.len()
        invariant
            i <= item.inputs@.len(),
            vs == param_views(header.fields_attributes@),
            header.fields_attributes@.len() == item.inputs@.len(),
            macro_args@.len() == i,
            forall|j: int| 0 <= j < i ==> macro_arg_ok(#[trigger] macro_args@[j], item.inputs@[j], vs[j]),
        decreases item.inputs@.len() - i,
    {
        let fa = &header.fields_attributes[i];
        assert(vs[i as int] == fa@);
        let m = match &item.inputs[i] {
            FnInput::Typed(p) => {
                let expand = if fa.arguments {
                    Some(transform_macro_name(&p.ty))
                } else {
                    None
                };
                let wg = named_mask(&p.attrs, "wgsl_gpu");
                let mut attrs: Vec<bool> = Vec::new();
                let mut j: usize = 0;
                while j < wg.len()
                    invariant
                        j <= wg@.len(),
                        attrs@.len() == j,
                        forall|k: int| 0 <= k < j ==> attrs@[k] == !wg@[k],
                    decreases wg@.len() - j,
                {
                    attrs.push(!wg[j]);
                    j = j + 1;
                }
                MacroArg { expand, attrs }
            },
            FnInput::Receiver => {
                let expand = if fa.arguments {
                    Some(transform_macro_name(&TypeShape::Other))
                } else {
                    None
                };
                MacroArg { expand, attrs: Vec::new() }
            },
        };
        macro_args.push(m);
        i = i + 1;
    }
    let filtered = filtered_input(item);
    let wrapper_attrs = named_mask(&item.attrs, "spirv");
    let ident_upper = to_uppercase(&item.ident);
    let bare = unraw_ident(&item.ident);
    let gpu_name = concat2(bare.as_str(), "_gpu");
    let const_name = concat2(ident_upper.as_str(), "_NAME");
    let ret_macro = match &item.output {
        Some(ty) => transform_macro_name(ty),
        None => {
            assert(false);
            Err(MacroError::ReturnTypeNotPath)
        },
    };
    let vertex_buffers = vertex_buffer_layout(&ident_upper, &header.fields_attributes);
    let bind_groups = bind_groups(&item.ident, &item.inputs, header.stage);
    Ok(
        EntryPlan {
            stage: header.stage,
            filtered,
            wrapper_attrs,
            gpu_name,
            macro_args,
            ret_macro,
            const_name,
            vertex_buffers,
            bind_groups,
        },
    )
}

/// The transform macro that the `Arguments` derive defines for a struct
/// named `name` (its data macro) is the one that the `entry` attribute calls
/// for a parameter or return type whose path ends in that name.
pub proof fn lemma_transform_names_agree(segs: Vec<String>, name: String)
    requires
        segs@.len() > 0,
        segs@.last()@ == name@,
    ensures
        spec_transform_macro_name(TypeShape::Path(segs)) == Ok::<Option<Seq<char>>, MacroErrorV>(
            Some(transform_macro_ident(name@)),
        ),
{
}

/// Several `spirv` attributes on an entry point count together: a setting is
/// present after merging exactly when some such attribute gives it.
pub proof fn lemma_merged_has(attrs: Seq<Attribute>, name: Seq<char>, key: Seq<char>)
    ensures
        merged_args(attrs, name) matches Ok(all) ==> (has_arg(all, key) <==> exists|i: int|
            0 <= i < attrs.len() && attr_is(#[trigger] attrs[i], name) && (attrs[i].args matches Ok(v)
                && has_arg(v@, key))),
    decreases attrs.len(),
{
    if attrs.len() > 0 {
        let rest = attrs.drop_last();
        lemma_merged_has(rest, name, key);
        assert forall|i: int| 0 <= i < rest.len() implies rest[i] == attrs[i] by {}
        if let Ok(all) = merged_args(attrs, name) {
            let prev = merged_args(rest, name)->Ok_0;
            let last = attrs.last();
            assert(attrs[attrs.len() - 1] == last);
            if attr_is(last, name) {
                let v = last.args->Ok_0;
                lemma_merge_has(prev, v@, key);
            }
            if exists|i: int| 0 <= i < attrs.len() && attr_is(#[trigger] attrs[i], name) && (attrs[i].args matches Ok(v) && has_arg(v@, key)) {
                let i = choose|i: int| 0 <= i < attrs.len() && attr_is(#[trigger] attrs[i], name) && (attrs[i].args matches Ok(v) && has_arg(v@, key));
                if i < rest.len() {
                    assert(rest[i] == attrs[i]);
                }
            }
        }
    }
}

pub open spec fn step_mode_of(m: Seq<char>) -> Option<StepMode> {
    if m == "vertex"@ {
        Some(StepMode::Vertex)
    } else if m == "instance"@ {
        Some(StepMode::Instance)
    } else {
        None
    }
}

/// Each buffer is an argument-struct parameter with its step mode.
pub open spec fn layout_sound(fa: Seq<FieldAttributesV>, es: Seq<VertexBufferEntry>) -> bool {
    forall|j: int|
        0 <= j < es.len() ==> {
            let i = (#[trigger] es[j]).input as int;
            &&& 0 <= i < fa.len()
            &&& fa[i].arguments
            &&& fa[i].step_mode matches Some(m) && step_mode_of(m) == Some(es[j].step_mode)
        }
}

/// The buffers come in parameter order.
pub open spec fn layout_ordered(es: Seq<VertexBufferEntry>) -> bool {
    forall|j: int, k: int| 0 <= j < k < es.len() ==> (#[trigger] es[j]).input < (#[trigger] es[k]).input
}

/// Every argument-struct parameter with a step mode has a buffer.
pub open spec fn layout_complete(fa: Seq<FieldAttributesV>, es: Seq<VertexBufferEntry>) -> bool {
    forall|i: int|
        0 <= i < fa.len() && (#[trigger] fa[i]).arguments && fa[i].step_mode is Some ==> exists|j: int|
            0 <= j < es.len() && (#[trigger] es[j]).input == i
}

/// An argument-struct parameter without step mode comes before all buffers.
pub open spec fn layout_unmoded_first(fa: Seq<FieldAttributesV>, es: Seq<VertexBufferEntry>) -> bool {
    forall|i: int, j: int|
        0 <= i < fa.len() && (#[trigger] fa[i]).arguments && fa[i].step_mode is None && 0 <= j < es.len()
            ==> i < (#[trigger] es[j]).input
}

/// One step of `layout_entries`, spelled out.
proof fn lemma_layout_step(fa: Seq<FieldAttributesV>)
    requires
        fa.len() > 0,
        layout_entries(fa) is Ok,
    ensures
        layout_entries(fa.drop_last()) is Ok,
        ({
            let prev = layout_entries(fa.drop_last())->Ok_0;
            let es = layout_entries(fa)->Ok_0;
            let a = fa.last();
            if a.arguments && a.step_mode is Some {
                es == prev.push(
                    VertexBufferEntry {
                        input: (fa.len() - 1) as usize,
                        step_mode: step_mode_of(a.step_mode->Some_0)->Some_0,
                    },
                ) && step_mode_of(a.step_mode->Some_0) is Some
            } else {
                es == prev && (a.arguments ==> prev.len() == 0)
            }
        }),
{
    reveal_with_fuel(layout_entries, 2);
}

proof fn lemma_layout_empty(fa: Seq<FieldAttributesV>)
    requires
        fa.len() == 0,
    ensures
        layout_entries(fa) == Ok::<Seq<VertexBufferEntry>, MacroErrorV>(seq![]),
{
    reveal_with_fuel(layout_entries, 1);
}

proof fn lemma_layout_sound(fa: Seq<FieldAttributesV>)
    requires
        fa.len() <= usize::MAX,
    ensures
        layout_entries(fa) matches Ok(es) ==> layout_sound(fa, es),
    decreases fa.len(),
{
    if fa.len() == 0 {
        lemma_layout_empty(fa);
    } else if layout_entries(fa) is Ok {
        let rest = fa.drop_last();
        lemma_layout_sound(rest);
        lemma_layout_step(fa);
        let es = layout_entries(fa)->Ok_0;
        let prev = layout_entries(rest)->Ok_0;
        assert(fa[fa.len() - 1] == fa.last());
        assert forall|j: int| 0 <= j < es.len() implies ({
            let i = (#[trigger] es[j]).input as int;
            &&& 0 <= i < fa.len()
            &&& fa[i].arguments
            &&& fa[i].step_mode matches Some(m) && step_mode_of(m) == Some(es[j].step_mode)
        }) by {
            if j < prev.len() {
                assert(es[j] == prev[j]);
                assert(rest[prev[j].input as int] == fa[prev[j].input as int]);
            }
        }
    }
}

proof fn lemma_layout_ordered(fa: Seq<FieldAttributesV>)
    requires
        fa.len() <= usize::MAX,
    ensures
        layout_entries(fa) matches Ok(es) ==> layout_ordered(es),
    decreases fa.len(),
{
    if fa.len() == 0 {
        lemma_layout_empty(fa);
    } else if layout_entries(fa) is Ok {
        let rest = fa.drop_last();
        lemma_layout_ordered(rest);
        lemma_layout_sound(rest);
        lemma_layout_step(fa);
        let es = layout_entries(fa)->Ok_0;
        let prev = layout_entries(rest)->Ok_0;
        assert forall|j: int, k: int| 0 <= j < k < es.len() implies (#[trigger] es[j]).input < (#[trigger] es[k]).input by {
            assert(es[j] == prev[j]);
            assert(prev[j].input < rest.len());
            if k < prev.len() {
                assert(es[k] == prev[k]);
            }
        }
    }
}

proof fn lemma_layout_complete(fa: Seq<FieldAttributesV>)
    requires
        fa.len() <= usize::MAX,
    ensures
        layout_entries(fa) matches Ok(es) ==> layout_complete(fa, es),
    decreases fa.len(),
{
    if fa.len() > 0 && layout_entries(fa) is Ok {
        let rest = fa.drop_last();
        lemma_layout_complete(rest);
        lemma_layout_step(fa);
        let n = fa.len() - 1;
        let es = layout_entries(fa)->Ok_0;
        let prev = layout_entries(rest)->Ok_0;
        assert(fa[n] == fa.last());
        assert forall|i: int|
            0 <= i < fa.len() && (#[trigger] fa[i]).arguments && fa[i].step_mode is Some implies exists|j: int|
                0 <= j < es.len() && (#[trigger] es[j]).input == i by {
            if i < n {
                assert(rest[i] == fa[i]);
                let j = choose|j: int| 0 <= j < prev.len() && (#[trigger] prev[j]).input == i;
                assert(es[j] == prev[j]);
            } else {
                assert(es[prev.len() as int].input == i);
            }
        }
    }
}

proof fn lemma_layout_unmoded_first(fa: Seq<FieldAttributesV>)
    requires
        fa.len() <= usize::MAX,
    ensures
        layout_entries(fa) matches Ok(es) ==> layout_unmoded_first(fa, es),
    decreases fa.len(),
{
    if fa.len() > 0 && layout_entries(fa) is Ok {
        let rest = fa.drop_last();
        lemma_layout_unmoded_first(rest);
        lemma_layout_step(fa);
        let n = fa.len() - 1;
        let es = layout_entries(fa)->Ok_0;
        let prev = layout_entries(rest)->Ok_0;
        assert(fa[n] == fa.last());
        assert forall|i: int, j: int|
            0 <= i < fa.len() && (#[trigger] fa[i]).arguments && fa[i].step_mode is None && 0 <= j < es.len()
                implies i < (#[trigger] es[j]).input by {
            if i < n {
                assert(rest[i] == fa[i]);
                if j < prev.len() {
                    assert(es[j] == prev[j]);
                }
            }
        }
    }
}

/// The vertex buffers of an entry point, when they can be laid out, are
/// exactly its argument-struct parameters that have a step mode, in order,
/// each with its step mode; and an argument-struct parameter without step
/// mode comes before all of them ("every or none", as far as it is checked).
pub proof fn lemma_layout_entries(fa: Seq<FieldAttributesV>)
    requires
        fa.len() <= usize::MAX,
    ensures
        layout_entries(fa) matches Ok(es) ==> {
            &&& layout_sound(fa, es)
            &&& layout_ordered(es)
            &&& layout_complete(fa, es)
            &&& layout_unmoded_first(fa, es)
        },
{
    lemma_layout_sound(fa);
    lemma_layout_ordered(fa);
    lemma_layout_complete(fa);
    lemma_layout_unmoded_first(fa);
}

/// A parameter that is no argument struct adds no vertex buffer and no
/// error, whatever settings it has.
pub proof fn lemma_layout_skips_plain_params(fa: Seq<FieldAttributesV>)
    requires
        fa.len() > 0,
        !fa.last().arguments,
    ensures
        layout_entries(fa) == layout_entries(fa.drop_last()),
{
    reveal_with_fuel(layout_entries, 1);
}

/// Every step mode given to an argument struct is `vertex` or `instance`.
pub open spec fn step_modes_known(fa: Seq<FieldAttributesV>) -> bool {
    forall|i: int|
        0 <= i < fa.len() && (#[trigger] fa[i]).arguments && fa[i].step_mode is Some ==> step_mode_of(
            fa[i].step_mode->Some_0,
        ) is Some
}

/// No argument struct without a step mode follows one with a step mode.
pub open spec fn step_modes_every_or_none(fa: Seq<FieldAttributesV>) -> bool {
    forall|j: int, i: int|
        0 <= j < i < fa.len() && (#[trigger] fa[j]).arguments && (#[trigger] fa[i]).arguments
            && fa[j].step_mode is Some ==> fa[i].step_mode is Some
}

/// The vertex buffer layouts read exactly when every step mode given to an
/// argument struct is `vertex` or `instance`, and no argument struct without
/// a step mode follows one with a step mode; parameters that are no argument
/// structs do not count. An unknown step mode is refused as such, and a
/// missing one as a mismatch.
#[verifier::rlimit(60)]
pub proof fn lemma_layout_ok(fa: Seq<FieldAttributesV>)
    requires
        fa.len() <= usize::MAX,
    ensures
        layout_entries(fa) is Ok <==> (step_modes_known(fa) && step_modes_every_or_none(fa)),
        layout_entries(fa) matches Err(e) ==> (e == MacroErrorV::InvalidStepMode && !step_modes_known(fa)) || (e
            == MacroErrorV::StepModeMismatch && !step_modes_every_or_none(fa)),
    decreases fa.len(),
{
    reveal_with_fuel(layout_entries, 1);
    if fa.len() > 0 {
        let rest = fa.drop_last();
        let n = fa.len() - 1;
        let a = fa.last();
        assert(fa[n] == a);
        lemma_layout_ok(rest);
        assert forall|i: int| 0 <= i < rest.len() implies rest[i] == fa[i] by {}
        let known_rest = step_modes_known(rest);
        let eon_rest = step_modes_every_or_none(rest);
        assert(step_modes_known(fa) ==> known_rest) by {
            if step_modes_known(fa) {
                assert forall|i: int|
                    0 <= i < rest.len() && (#[trigger] rest[i]).arguments && rest[i].step_mode is Some
                        implies step_mode_of(rest[i].step_mode->Some_0) is Some by {
                    assert(fa[i] == rest[i]);
                }
            }
        }
        assert(step_modes_every_or_none(fa) ==> eon_rest) by {
            if step_modes_every_or_none(fa) {
                assert forall|j: int, i: int|
                    0 <= j < i < rest.len() && (#[trigger] rest[j]).arguments && (#[trigger] rest[i]).arguments
                        && rest[j].step_mode is Some implies rest[i].step_mode is Some by {
                    assert(fa[j] == rest[j] && fa[i] == rest[i]);
                }
            }
        }
        if let Ok(es) = layout_entries(rest) {
            lemma_layout_sound(rest);
            lemma_layout_complete(rest);
            // a buffer so far means a moded argument struct so far
            let moded_before = exists|j: int| 0 <= j < n && (#[trigger] fa[j]).arguments && fa[j].step_mode is Some;
            assert(es.len() > 0 <==> moded_before) by {
                if es.len() > 0 {
                    let j = es[0].input as int;
                    assert(rest[j].arguments && rest[j].step_mode is Some);
                    assert(fa[j] == rest[j]);
                }
                if moded_before {
                    let j = choose|j: int| 0 <= j < n && (#[trigger] fa[j]).arguments && fa[j].step_mode is Some;
                    assert(rest[j] == fa[j]);
                    assert(rest[j].arguments && rest[j].step_mode is Some);
                }
            }
            if a.arguments {
                match a.step_mode {
                    None => {
                        if es.len() > 0 {
                            let j = choose|j: int| 0 <= j < n && (#[trigger] fa[j]).arguments && fa[j].step_mode is Some;
                            assert(fa[j].arguments && fa[n].arguments && fa[j].step_mode is Some);
                        } else {
                            assert forall|i: int|
                                0 <= i < fa.len() && (#[trigger] fa[i]).arguments && fa[i].step_mode is Some
                                    implies step_mode_of(fa[i].step_mode->Some_0) is Some by {
                                assert(rest[i] == fa[i]);
                            }
                            assert forall|j: int, i: int|
                                0 <= j < i < fa.len() && (#[trigger] fa[j]).arguments && (#[trigger] fa[i]).arguments
                                    && fa[j].step_mode is Some implies fa[i].step_mode is Some by {
                                if i == n {
                                    assert(moded_before);
                                } else {
                                    assert(rest[j] == fa[j] && rest[i] == fa[i]);
                                }
                            }
                        }
                    },
                    Some(m) => {
                        if step_mode_of(m) is Some {
                            assert forall|i: int|
                                0 <= i < fa.len() && (#[trigger] fa[i]).arguments && fa[i].step_mode is Some
                                    implies step_mode_of(fa[i].step_mode->Some_0) is Some by {
                                if i < n {
                                    assert(rest[i] == fa[i]);
                                }
                            }
                            assert forall|j: int, i: int|
                                0 <= j < i < fa.len() && (#[trigger] fa[j]).arguments && (#[trigger] fa[i]).arguments
                                    && fa[j].step_mode is Some implies fa[i].step_mode is Some by {
                                if i < n {
                                    assert(rest[j] == fa[j] && rest[i] == fa[i]);
                                }
                            }
                        } else {
                            assert(fa[n].arguments && fa[n].step_mode is Some);
                        }
                    },
                }
            } else {
                assert forall|i: int|
                    0 <= i < fa.len() && (#[trigger] fa[i]).arguments && fa[i].step_mode is Some
                        implies step_mode_of(fa[i].step_mode->Some_0) is Some by {
                    assert(rest[i] == fa[i]);
                }
                assert forall|j: int, i: int|
                    0 <= j < i < fa.len() && (#[trigger] fa[j]).arguments && (#[trigger] fa[i]).arguments
                        && fa[j].step_mode is Some implies fa[i].step_mode is Some by {
                    assert(rest[j] == fa[j] && rest[i] == fa[i]);
                }
            }
        }
    }
}

/// The parameter binds a resource in descriptor set `s`.
pub open spec fn binds_in_set(input: FnInput, s: nat) -> bool {
    bind_of(input) matches Some(b) && b.descriptor_set == s
}

/// The edits of descriptor set `s` come one for one from the parameters that
/// bind in it, in parameter order (the `k`-th edit from parameter `idx[k]`):
/// each edit fills the binding that its parameter names, with the resource
/// that its parameter's type binds.
pub proof fn lemma_set_edits_from_params(inputs: Seq<FnInput>, s: nat) -> (idx: Seq<int>)
    ensures
        idx.len() == set_edits(inputs, s).len(),
        forall|k: int|
            0 <= k < idx.len() ==> {
                let i = #[trigger] idx[k];
                let b = bind_of(inputs[i])->Some_0;
                &&& 0 <= i < inputs.len()
                &&& binds_in_set(inputs[i], s)
                &&& set_edits(inputs, s)[k].0 == b.binding
                &&& set_edits(inputs, s)[k].1 == spec_binding_type(b.uniform, type_of(inputs[i]))
            },
        forall|j: int, k: int| 0 <= j < k < idx.len() ==> #[trigger] idx[j] < #[trigger] idx[k],
        forall|i: int|
            0 <= i < inputs.len() && binds_in_set(#[trigger] inputs[i], s) ==> exists|k: int|
                0 <= k < idx.len() && #[trigger] idx[k] == i,
    decreases inputs.len(),
{
    if inputs.len() == 0 {
        seq![]
    } else {
        let rest = inputs.drop_last();
        let n = inputs.len() - 1;
        let prev = lemma_set_edits_from_params(rest, s);
        assert forall|i: int| 0 <= i < rest.len() implies rest[i] == inputs[i] by {}
        assert(inputs[n] == inputs.last());
        if binds_in_set(inputs.last(), s) {
            let idx = prev.push(n);
            assert forall|i: int|
                0 <= i < inputs.len() && binds_in_set(#[trigger] inputs[i], s) implies exists|k: int|
                    0 <= k < idx.len() && #[trigger] idx[k] == i by {
                if i == n {
                    assert(idx[prev.len() as int] == n);
                } else {
                    assert(rest[i] == inputs[i]);
                    let k = choose|k: int| 0 <= k < prev.len() && #[trigger] prev[k] == i;
                    assert(idx[k] == prev[k]);
                }
            }
            assert forall|k: int| 0 <= k < idx.len() implies ({
                let i = #[trigger] idx[k];
                let b = bind_of(inputs[i])->Some_0;
                &&& 0 <= i < inputs.len()
                &&& binds_in_set(inputs[i], s)
                &&& set_edits(inputs, s)[k].0 == b.binding
                &&& set_edits(inputs, s)[k].1 == spec_binding_type(b.uniform, type_of(inputs[i]))
            }) by {
                if k < prev.len() {
                    assert(idx[k] == prev[k]);
                    assert(set_edits(inputs, s)[k] == set_edits(rest, s)[k]);
                    assert(rest[prev[k]] == inputs[prev[k]]);
                }
            }
            assert forall|j: int, k: int| 0 <= j < k < idx.len() implies #[trigger] idx[j] < #[trigger] idx[k] by {
                if k < prev.len() {
                    assert(idx[j] == prev[j] && idx[k] == prev[k]);
                } else {
                    assert(idx[j] == prev[j]);
                }
            }
            idx
        } else {
            assert(set_edits(inputs, s) == set_edits(rest, s));
            assert forall|i: int|
                0 <= i < inputs.len() && binds_in_set(#[trigger] inputs[i], s) implies exists|k: int|
                    0 <= k < prev.len() && #[trigger] prev[k] == i by {
                assert(i != n);
                assert(rest[i] == inputs[i]);
            }
            assert forall|k: int| 0 <= k < prev.len() implies ({
                let i = #[trigger] prev[k];
                let b = bind_of(inputs[i])->Some_0;
                &&& 0 <= i < inputs.len()
                &&& binds_in_set(inputs[i], s)
                &&& set_edits(inputs, s)[k].0 == b.binding
                &&& set_edits(inputs, s)[k].1 == spec_binding_type(b.uniform, type_of(inputs[i]))
            }) by {
                assert(rest[prev[k]] == inputs[prev[k]]);
            }
            prev
        }
    }
}

/// The generated names of an entry point whose name is not raw keep that
/// name whole: the wrapper is the name followed by `_gpu`, and the bind
/// groups macro is `wgsl_gpu_`, the name, `_bind_groups_macro`.
pub proof fn lemma_plain_names(p: EntryPlan, item: ItemFn, stage: Stage, vs: Seq<FieldAttributesV>)
    requires
        entry_plan_ok(p, item, stage, vs),
        !(item.ident@.len() >= 2 && item.ident@[0] == 'r' && item.ident@[1] == '#'),
    ensures
        p.gpu_name@ == item.ident@ + "_gpu"@,
        p.bind_groups.macro_name@ == "wgsl_gpu_"@ + item.ident@ + "_bind_groups_macro"@,
{
    crate::text::lemma_unraw(item.ident@, seq![]);
}

/// Where generating an entry point stops with a panic.
pub enum EntryPanic {
    /// The function has no return type ("return type required").
    ReturnTypeRequired,
    /// The parameter at `input`, the first such, binds descriptor set `set`,
    /// beyond the table.
    DescriptorSetOutOfRange { input: usize, set: u32 },
    /// `format_ident!` cannot make an identifier of the name `text` that a
    /// generated constant is to have.
    InvalidIdent { text: String },
}

/// What the `entry` attribute does with a function.
pub enum EntryOutcome {
    Generated(EntryPlan),
    Refused(MacroError),
    Panics(EntryPanic),
}

pub open spec fn set_out_of_range(input: FnInput) -> bool {
    bind_of(input) matches Some(b) && b.descriptor_set >= MAX_SETS
}

fn first_set_out_of_range(inputs: &Vec<FnInput>) -> (r: Option<(usize, u32)>)
    ensures
        r matches Some((k, set)) ==> k < inputs@.len() && set_out_of_range(inputs@[k as int])
            && bind_of(inputs@[k as int])->Some_0.descriptor_set == set && forall|j: int|
            0 <= j < k ==> !set_out_of_range(#[trigger] inputs@[j]),
        r is None ==> bind_sets_in_range(inputs@),
{
    let mut i: usize = 0;
    while i < inputs.len()
        invariant
            i <= inputs@.len(),
            forall|j: int| 0 <= j < i ==> !set_out_of_range(#[trigger] inputs@[j]),
        decreases inputs@.len() - i,
    {
        if let Some(b) = binding_of(&inputs[i]) {
            if b.descriptor_set >= 8 {
                return Some((i, b.descriptor_set));
            }
        }
        i = i + 1;
    }
    assert forall|j: int| 0 <= j < inputs@.len() implies (bind_of(#[trigger] inputs@[j]) matches Some(b)
        ==> b.descriptor_set < MAX_SETS) by {
        assert(!set_out_of_range(inputs@[j]));
    }
    None
}

/// The name of the constant that holds the wrapper's name.
pub open spec fn name_const(item: ItemFn) -> Seq<char> {
    uppercase(item.ident@) + "_NAME"@
}

/// The name of the constant that holds the vertex buffer layouts.
pub open spec fn layouts_const(item: ItemFn) -> Seq<char> {
    uppercase(item.ident@) + "_VERTEX_BUFFER_LAYOUTS"@
}

/// What the `entry` attribute does with the function `item`, in the order in
/// which generation meets it: the error of its header if it cannot be read;
/// else a panic when the upper-case name of the constant holding the
/// wrapper's name is no identifier (as for a raw `r#name`, which gives
/// `R#NAME_NAME`), when it has no return type, when the vertex buffer
/// layouts read but their constant's name is no identifier, or when a
/// parameter binds a descriptor set beyond the table (the first such); else
/// everything generated for it.
pub fn entry(item: &ItemFn) -> (r: EntryOutcome)
    ensures
        match spec_entry_header(*item) {
            Err(e) => r matches EntryOutcome::Refused(x) && x@ == e,
            Ok((stage, vs)) => if !ident_formattable(name_const(*item)) {
                r matches EntryOutcome::Panics(EntryPanic::InvalidIdent { text }) && text@ == name_const(*item)
            } else if item.output is None {
                r matches EntryOutcome::Panics(EntryPanic::ReturnTypeRequired)
            } else if layout_entries(vs) is Ok && !ident_formattable(layouts_const(*item)) {
                r matches EntryOutcome::Panics(EntryPanic::InvalidIdent { text }) && text@ == layouts_const(*item)
            } else if bind_sets_in_range(item.inputs@) {
                r matches EntryOutcome::Generated(p) && entry_plan_ok(p, *item, stage, vs)
            } else {
                r matches EntryOutcome::Panics(EntryPanic::DescriptorSetOutOfRange { input, set }) && input
                    < item.inputs@.len() && set_out_of_range(item.inputs@[input as int]) && bind_of(
                    item.inputs@[input as int],
                )->Some_0.descriptor_set == set && forall|j: int|
                    0 <= j < input ==> !set_out_of_range(#[trigger] item.inputs@[j])
            },
        },
{
    let header = match entry_header(item) {
        Err(e) => {
            return EntryOutcome::Refused(e);
        },
        Ok(h) => h,
    };
    let upper = to_uppercase(&item.ident);
    let name = concat2(upper.as_str(), "_NAME");
    if !formattable_ident(name.as_str()) {
        return EntryOutcome::Panics(EntryPanic::InvalidIdent { text: name });
    }
    if item.output.is_none() {
        return EntryOutcome::Panics(EntryPanic::ReturnTypeRequired);
    }
    if let Ok(layouts) = vertex_buffer_layout(&upper, &header.fields_attributes) {
        if !formattable_ident(layouts.const_name.as_str()) {
            return EntryOutcome::Panics(EntryPanic::InvalidIdent { text: layouts.const_name });
        }
    }
    if let Some((input, set)) = first_set_out_of_range(&item.inputs) {
        proof {
            assert(!bind_sets_in_range(item.inputs@)) by {
                assert(bind_of(item.inputs@[input as int]) matches Some(b) && b.descriptor_set >= MAX_SETS);
            }
        }
        return EntryOutcome::Panics(EntryPanic::DescriptorSetOutOfRange { input, set });
    }
    match entry_generation(item) {
        Ok(p) => EntryOutcome::Generated(p),
        Err(e) => EntryOutcome::Refused(e),
    }
}

} // verus!
