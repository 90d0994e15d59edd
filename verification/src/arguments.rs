//! What the `Arguments` derive generates for a struct whose fields are passed
//! to, or returned from, a shader entry point one by one.
use vstd::prelude::*;
use crate::args::{
    ArgError, ArgErrorV, errors_view, error_of, optional_u32, optional_text, unknown_errors,
    known_view, read_optional_u32, read_optional_text, push_unknown_errors, opt_text,
};
use crate::errors::{MacroError, MacroErrorV};
use crate::text::{unraw, unraw_ident, concat3};
use crate::ident::{formattable_ident, ident_formattable};
use crate::vertex::{
    VertexFormat, VertexTypeError, VertexTypeErrorV, spec_vertex_format, rust_type_to_wgpu_attribute,
    vertex_format,
};
use crate::syntax::{append_args, Arg, Attribute, Field, attr_is, has_arg, contains_arg, attribute_is, find_attr, position_of_attr};

verus! {

/// The struct-level settings, from every `#[wgsl_gpu(..)]` on the struct.
pub struct ArgumentsAttributes {
    /// Generate the table of vertex attributes (`ATTRIBUTES`).
    pub attributes: bool,
}

/// The settings of one field, from its first `#[wgsl_gpu(..)]`.
pub struct ArgumentsFieldAttributes {
    /// The shader location of the field.
    pub location: Option<u32>,
    /// The builtin the field is written to when returned.
    pub output: Option<String>,
    /// The builtin the field is read from when passed in.
    pub input: Option<String>,
}

/// `ArgumentsFieldAttributes` with its texts as sequences.
pub struct ArgumentsFieldAttributesV {
    pub location: Option<u32>,
    pub output: Option<Seq<char>>,
    pub input: Option<Seq<char>>,
}

impl View for ArgumentsFieldAttributes {
    type V = ArgumentsFieldAttributesV;

    open spec fn view(&self) -> ArgumentsFieldAttributesV {
        ArgumentsFieldAttributesV {
            location: self.location,
            output: opt_text(self.output),
            input: opt_text(self.input),
        }
    }
}

pub open spec fn struct_setting_names() -> Seq<Seq<char>> {
    seq!["attributes"@]
}

pub open spec fn field_setting_names() -> Seq<Seq<char>> {
    seq!["location"@, "output"@, "input"@]
}

/// The struct-level settings that `args` give.
pub open spec fn struct_settings(args: Seq<Arg>) -> Result<bool, Seq<ArgErrorV>> {
    let errors = unknown_errors(args, struct_setting_names());
    if errors.len() == 0 {
        Ok(has_arg(args, "attributes"@))
    } else {
        Err(errors)
    }
}

/// The errors of the field settings that `args` give, in the order of the
/// settings, then those of the unknown arguments.
pub open spec fn field_settings_errors(args: Seq<Arg>) -> Seq<ArgErrorV> {
    error_of(optional_u32(args, "location"@)) + error_of(optional_text(args, "output"@)) + error_of(
        optional_text(args, "input"@),
    ) + unknown_errors(args, field_setting_names())
}

/// The field settings that `args` give.
pub open spec fn field_settings(args: Seq<Arg>) -> Result<ArgumentsFieldAttributesV, Seq<ArgErrorV>> {
    if field_settings_errors(args).len() == 0 {
        Ok(
            ArgumentsFieldAttributesV {
                location: optional_u32(args, "location"@)->Ok_0,
                output: optional_text(args, "output"@)->Ok_0,
                input: optional_text(args, "input"@)->Ok_0,
            },
        )
    } else {
        Err(field_settings_errors(args))
    }
}

/// The arguments of all attributes named `name`, in order, or the message of
/// the first of them whose arguments could not be read.
pub open spec fn collected_args(attrs: Seq<Attribute>, name: Seq<char>) -> Result<Seq<Arg>, Seq<char>>
    decreases attrs.len(),
{
    if attrs.len() == 0 {
        Ok(seq![])
    } else {
        match collected_args(attrs.drop_last(), name) {
            Err(m) => Err(m),
            Ok(a) => if attr_is(attrs.last(), name) {
                match attrs.last().args {
                    Ok(v) => Ok(a + v@),
                    Err(m) => Err(m@),
                }
            } else {
                Ok(a)
            },
        }
    }
}

/// The struct-level settings from the attributes on the struct.
pub open spec fn struct_settings_of(attrs: Seq<Attribute>) -> Result<bool, MacroErrorV> {
    match collected_args(attrs, "wgsl_gpu"@) {
        Err(m) => Err(MacroErrorV::Syntax(m)),
        Ok(args) => match struct_settings(args) {
            Ok(b) => Ok(b),
            Err(es) => Err(MacroErrorV::Arguments(es)),
        },
    }
}

/// The settings of a field, from its first `wgsl_gpu` attribute; the error
/// names the field by `index`.
pub open spec fn field_settings_of(f: Field, index: nat) -> Result<ArgumentsFieldAttributesV, MacroErrorV> {
    match find_attr(f.attrs@, "wgsl_gpu"@) {
        None => Err(MacroErrorV::MissingAttribute(index)),
        Some(i) => match f.attrs@[i].args {
            Err(m) => Err(MacroErrorV::Syntax(m@)),
            Ok(args) => match field_settings(args@) {
                Ok(v) => Ok(v),
                Err(es) => Err(MacroErrorV::Arguments(es)),
            },
        },
    }
}

/// Collects the arguments of all attributes named `name` on an item.
pub fn collect_args(attrs: &Vec<Attribute>, name: &str) -> (r: Result<Vec<Arg>, String>)
    ensures
        match r {
            Ok(v) => collected_args(attrs@, name@) == Ok::<Seq<Arg>, Seq<char>>(v@),
            Err(m) => collected_args(attrs@, name@) == Err::<Seq<Arg>, Seq<char>>(m@),
        },
{
    let mut merged: Vec<Arg> = Vec::new();
    let mut i: usize = 0;
    while i < attrs.len()
        invariant
            i <= attrs.len(),
            collected_args(attrs@.subrange(0, i as int), name@) == Ok::<Seq<Arg>, Seq<char>>(merged@),
        decreases attrs.len() - i,
    {
        let ghost prefix = attrs@.subrange(0, i as int);
        let ghost next = attrs@.subrange(0, i + 1);
        assert(next.drop_last() =~= prefix);
        assert(next.last() == attrs@[i as int]);
        if attribute_is(&attrs[i], name) {
            match &attrs[i].args {
                Ok(v) => {
                    let ghost m0 = merged@;
                    append_args(&mut merged, v);
                    assert(merged@ =~= m0 + v@);
                },
                Err(m) => {
                    proof {
                        lemma_collected_err_extends(attrs@, (i + 1) as nat, name@);
                    }
                    return Err(m.clone());
                },
            }
        }
        i = i + 1;
    }
    assert(attrs@.subrange(0, i as int) =~= attrs@);
    Ok(merged)
}

/// Once reading fails on a prefix, the failure stands for the whole list.
proof fn lemma_collected_err_extends(attrs: Seq<Attribute>, k: nat, name: Seq<char>)
    requires
        k <= attrs.len(),
    ensures
        collected_args(attrs.subrange(0, k as int), name) is Err ==> collected_args(attrs, name)
            == collected_args(attrs.subrange(0, k as int), name),
    decreases attrs.len() - k,
{
    if k < attrs.len() {
        lemma_collected_err_extends(attrs, k + 1, name);
        assert(attrs.subrange(0, (k + 1) as int).drop_last() =~= attrs.subrange(0, k as int));
    } else {
        assert(attrs.subrange(0, k as int) =~= attrs);
    }
}

impl ArgumentsAttributes {
    /// Reads the struct-level settings from the arguments of its attributes.
    pub fn from_args(args: &Vec<Arg>) -> (r: Result<Self, Vec<ArgError>>)
        ensures
            match r {
                Ok(v) => struct_settings(args@) == Ok::<bool, Seq<ArgErrorV>>(v.attributes),
                Err(es) => struct_settings(args@) == Err::<bool, Seq<ArgErrorV>>(errors_view(es@)),
            },
    {
        let mut errors: Vec<ArgError> = Vec::new();
        let attributes = contains_arg(args, "attributes");
        let known = ["attributes"];
        assert(known_view(known@) =~= struct_setting_names());
        push_unknown_errors(args, known.as_slice(), &mut errors);
        assert(errors_view(errors@) =~= unknown_errors(args@, struct_setting_names()));
        if errors.len() > 0 {
            Err(errors)
        } else {
            Ok(ArgumentsAttributes { attributes })
        }
    }

    /// Reads the struct-level settings from every `wgsl_gpu` attribute on the
    /// struct, whose arguments count as one list.
    pub fn from_input(attrs: &Vec<Attribute>) -> (r: Result<Self, MacroError>)
        ensures
            match r {
                Ok(v) => struct_settings_of(attrs@) == Ok::<bool, MacroErrorV>(v.attributes),
                Err(e) => struct_settings_of(attrs@) == Err::<bool, MacroErrorV>(e@),
            },
    {
        match collect_args(attrs, "wgsl_gpu") {
            Err(m) => Err(MacroError::Syntax(m)),
            Ok(args) => match Self::from_args(&args) {
                Ok(v) => Ok(v),
                Err(es) => Err(MacroError::Arguments(es)),
            },
        }
    }
}

impl ArgumentsFieldAttributes {
    /// Reads the settings of a field from the arguments of its attribute.
    pub fn from_args(args: &Vec<Arg>) -> (r: Result<Self, Vec<ArgError>>)
        ensures
            match r {
                Ok(v) => field_settings(args@) == Ok::<ArgumentsFieldAttributesV, Seq<ArgErrorV>>(v@),
                Err(es) => field_settings(args@) == Err::<ArgumentsFieldAttributesV, Seq<ArgErrorV>>(
                    errors_view(es@),
                ),
            },
    {
        let mut errors: Vec<ArgError> = Vec::new();
        assert(errors_view(errors@) =~= seq![]);
        let location = read_optional_u32(args, "location", &mut errors);
        let output = read_optional_text(args, "output", &mut errors);
        let input = read_optional_text(args, "input", &mut errors);
        let known = ["location", "output", "input"];
        assert(known_view(known@) =~= field_setting_names());
        push_unknown_errors(args, known.as_slice(), &mut errors);
        assert(errors_view(errors@) =~= field_settings_errors(args@));
        if errors.len() > 0 {
            Err(errors)
        } else {
            Ok(ArgumentsFieldAttributes { location, output, input })
        }
    }

    /// Reads the settings of every field from its first `wgsl_gpu` attribute;
    /// the first field that has none, or whose settings cannot be read, gives
    /// the error.
    pub fn parse(fields: &Vec<Field>) -> (r: Result<Vec<Self>, MacroError>)
        ensures
            match r {
                Ok(v) => all_field_settings(fields@) == Ok::<Seq<ArgumentsFieldAttributesV>, MacroErrorV>(
                    settings_view(v@),
                ),
                Err(e) => all_field_settings(fields@) == Err::<Seq<ArgumentsFieldAttributesV>, MacroErrorV>(e@),
            },
    {
        let mut out: Vec<Self> = Vec::new();
        let mut i: usize = 0;
        assert(fields@.subrange(0, 0) =~= Seq::<Field>::empty());
        assert(settings_view(out@) =~= Seq::<ArgumentsFieldAttributesV>::empty());
        while i < fields.len()
            invariant
                i <= fields.len(),
                all_field_settings(fields@.subrange(0, i as int)) == Ok::<
                    Seq<ArgumentsFieldAttributesV>,
                    MacroErrorV,
                >(settings_view(out@)),
            decreases fields.len() - i,
        {
            let ghost next = fields@.subrange(0, i + 1);
            assert(next.drop_last() =~= fields@.subrange(0, i as int));
            assert(next.last() == fields@[i as int]);
            let f = &fields[i];
            let ghost one = field_settings_of(fields@[i as int], i as nat);
            let step: Result<Self, MacroError> = match position_of_attr(&f.attrs, "wgsl_gpu") {
                None => Err(MacroError::MissingAttribute(i)),
                Some(k) => match &f.attrs[k].args {
                    Err(m) => Err(MacroError::Syntax(m.clone())),
                    Ok(args) => match Self::from_args(args) {
                        Ok(v) => Ok(v),
                        Err(es) => Err(MacroError::Arguments(es)),
                    },
                },
            };
            match step {
                Ok(v) => {
                    assert(one == Ok::<ArgumentsFieldAttributesV, MacroErrorV>(v@));
                    let ghost o0 = out@;
                    out.push(v);
                    assert(settings_view(out@) =~= settings_view(o0).push(v@));
                },
                Err(e) => {
                    assert(one == Err::<ArgumentsFieldAttributesV, MacroErrorV>(e@));
                    proof {
                        lemma_all_settings_err_extends(fields@, (i + 1) as nat);
                    }
                    return Err(e);
                },
            }
            i = i + 1;
        }
        assert(fields@.subrange(0, i as int) =~= fields@);
        Ok(out)
    }
}

pub open spec fn settings_view(v: Seq<ArgumentsFieldAttributes>) -> Seq<ArgumentsFieldAttributesV> {
    v.map_values(|a: ArgumentsFieldAttributes| a@)
}

proof fn lemma_all_settings_err_extends(fields: Seq<Field>, k: nat)
    requires
        k <= fields.len(),
    ensures
        all_field_settings(fields.subrange(0, k as int)) is Err ==> all_field_settings(fields)
            == all_field_settings(fields.subrange(0, k as int)),
    decreases fields.len() - k,
{
    if k < fields.len() {
        lemma_all_settings_err_extends(fields, k + 1);
        assert(fields.subrange(0, (k + 1) as int).drop_last() =~= fields.subrange(0, k as int));
    } else {
        assert(fields.subrange(0, k as int) =~= fields);
    }
}

/// How a field is bound in the shader interface.
pub enum SpirvAttr {
    /// `location = n`.
    Location(u32),
    /// A builtin, by name.
    Builtin(String),
}

pub enum SpirvAttrV {
    Location(u32),
    Builtin(Seq<char>),
}

impl View for SpirvAttr {
    type V = SpirvAttrV;

    open spec fn view(&self) -> SpirvAttrV {
        match self {
            SpirvAttr::Location(l) => SpirvAttrV::Location(*l),
            SpirvAttr::Builtin(b) => SpirvAttrV::Builtin(b@),
        }
    }
}

pub open spec fn spirv_result_view(r: Result<SpirvAttr, MacroError>) -> Result<SpirvAttrV, MacroErrorV> {
    match r {
        Ok(a) => Ok(a@),
        Err(e) => Err(e@),
    }
}

/// How a field is bound when the struct is returned: its location, else its
/// output builtin.
pub open spec fn spec_output_attribute(v: ArgumentsFieldAttributesV) -> Result<SpirvAttrV, MacroErrorV> {
    match v.location {
        Some(l) => Ok(SpirvAttrV::Location(l)),
        None => match v.output {
            Some(o) => Ok(SpirvAttrV::Builtin(o)),
            None => Err(MacroErrorV::ExpectedLocationOrOutput),
        },
    }
}

/// How a field is bound when the struct is passed in: its location, else its
/// input builtin.
pub open spec fn spec_input_attribute(v: ArgumentsFieldAttributesV) -> Result<SpirvAttrV, MacroErrorV> {
    match v.location {
        Some(l) => Ok(SpirvAttrV::Location(l)),
        None => match v.input {
            Some(i) => Ok(SpirvAttrV::Builtin(i)),
            None => Err(MacroErrorV::ExpectedLocationOrInput),
        },
    }
}

/// The field is bound by its input builtin (it has no location), and
/// `format_ident!` cannot make an identifier of that name.
pub open spec fn bad_input(v: ArgumentsFieldAttributesV) -> bool {
    v.location is None && (v.input matches Some(t) && !ident_formattable(t))
}

/// The field is bound by its output builtin (it has no location), and
/// `format_ident!` cannot make an identifier of that name.
pub open spec fn bad_output(v: ArgumentsFieldAttributesV) -> bool {
    v.location is None && (v.output matches Some(t) && !ident_formattable(t))
}

/// Every builtin name that the transform macro writes is an identifier.
pub open spec fn builtins_formattable(vs: Seq<ArgumentsFieldAttributesV>) -> bool {
    forall|i: int| 0 <= i < vs.len() ==> !bad_input(#[trigger] vs[i]) && !bad_output(vs[i])
}

impl ArgumentsFieldAttributes {
    /// How the field is bound when the struct is returned from an entry point.
    pub fn output_attribute(&self) -> (r: Result<SpirvAttr, MacroError>)
        requires
            !bad_output(self@),
        ensures
            spirv_result_view(r) == spec_output_attribute(self@),
    {
        if let Some(location) = self.location {
            Ok(SpirvAttr::Location(location))
        } else if let Some(output) = &self.output {
            Ok(SpirvAttr::Builtin(output.clone()))
        } else {
            Err(MacroError::ExpectedLocationOrOutput)
        }
    }

    /// How the field is bound when the struct is passed to an entry point.
    pub fn input_attribute(&self) -> (r: Result<SpirvAttr, MacroError>)
        requires
            !bad_input(self@),
        ensures
            spirv_result_view(r) == spec_input_attribute(self@),
    {
        if let Some(location) = self.location {
            Ok(SpirvAttr::Location(location))
        } else if let Some(input) = &self.input {
            Ok(SpirvAttr::Builtin(input.clone()))
        } else {
            Err(MacroError::ExpectedLocationOrInput)
        }
    }
}

/// One vertex attribute of the struct's `ATTRIBUTES` table: the field at
/// index `field`, uploaded in `format` to shader location `location`.
pub struct LocationEntry {
    pub field: usize,
    pub format: VertexFormat,
    pub location: u32,
}

pub open spec fn location_result_view(r: Result<LocationEntry, MacroError>) -> Result<LocationEntry, MacroErrorV> {
    match r {
        Ok(a) => Ok(a),
        Err(e) => Err(e@),
    }
}

/// The vertex attribute of field `index`: it needs a location.
pub open spec fn spec_location_entry(index: nat, f: Field, v: ArgumentsFieldAttributesV) -> Result<
    LocationEntry,
    MacroErrorV,
> {
    match v.location {
        None => Err(MacroErrorV::LocationRequired(index)),
        Some(l) => Ok(
            LocationEntry {
                field: index as usize,
                format: spec_vertex_format(f.ty)->Ok_0,
                location: l,
            },
        ),
    }
}

/// The fields with a location can be uploaded as vertex attributes.
pub open spec fn locations_supported(fields: Seq<Field>, attrs: Seq<ArgumentsFieldAttributes>) -> bool {
    forall|i: int|
        0 <= i < fields.len() && 0 <= i < attrs.len() && (#[trigger] attrs[i]).location is Some
            ==> spec_vertex_format(fields[i].ty) is Ok
}

/// The vertex attribute of one field.
pub fn arguments_locations_field(index: usize, field: &Field, attributes: &ArgumentsFieldAttributes) -> (r: Result<LocationEntry, MacroError>)
    requires
        attributes.location is Some ==> spec_vertex_format(field.ty) is Ok,
    ensures
        location_result_view(r) == spec_location_entry(index as nat, *field, attributes@),
{
    match attributes.location {
        None => Err(MacroError::LocationRequired(index)),
        Some(location) => {
            let format = rust_type_to_wgpu_attribute(&field.ty);
            Ok(LocationEntry { field: index, format, location })
        },
    }
}

/// The `ATTRIBUTES` table of a struct: nothing unless the struct asks for it,
/// else one entry per field (with its settings).
pub fn arguments_locations(
    attributes: &ArgumentsAttributes,
    fields: &Vec<Field>,
    fields_attributes: &Vec<ArgumentsFieldAttributes>,
) -> (r: Option<Vec<Result<LocationEntry, MacroError>>>)
    requires
        attributes.attributes ==> locations_supported(fields@, fields_attributes@),
    ensures
        r is None <==> !attributes.attributes,
        r matches Some(v) ==> {
            &&& v@.len() == if fields@.len() < fields_attributes@.len() {
                fields@.len()
            } else {
                fields_attributes@.len()
            }
            &&& forall|i: int|
                0 <= i < v@.len() ==> location_result_view(#[trigger] v@[i]) == spec_location_entry(
                    i as nat,
                    fields@[i],
                    fields_attributes@[i]@,
                )
        },
{
    if !attributes.attributes {
        return None;
    }
    let mut out: Vec<Result<LocationEntry, MacroError>> = Vec::new();
    let mut i: usize = 0;
    while i < fields.len() && i < fields_attributes.len()
        invariant
            i <= fields@.len(),
            i <= fields_attributes@.len(),
            out@.len() == i,
            locations_supported(fields@, fields_attributes@),
            forall|j: int|
                0 <= j < i ==> location_result_view(#[trigger] out@[j]) == spec_location_entry(
                    j as nat,
                    fields@[j],
                    fields_attributes@[j]@,
                ),
        decreases fields@.len() - i,
    {
        assert(fields_attributes@[i as int].location is Some ==> spec_vertex_format(fields@[i as int].ty) is Ok);
        out.push(arguments_locations_field(i, &fields[i], &fields_attributes[i]));
        i = i + 1;
    }
    Some(out)
}

/// How one field appears in the struct's transform macro.
pub struct DataMacroField {
    pub field: usize,
    /// Its binding when the struct is passed in.
    pub input: Result<SpirvAttr, MacroError>,
    /// Its binding when the struct is returned.
    pub output: Result<SpirvAttr, MacroError>,
}

/// The transform macro of a struct, which spreads it into one shader
/// parameter per field.
pub struct DataMacroPlan {
    pub macro_name: String,
    pub fields: Vec<DataMacroField>,
    /// The tuple handed to `from_arguments`: its element `k` is the shader
    /// parameter of field `passed[k]`.
    pub passed: Vec<usize>,
}

/// The fields `0..n`, in order.
pub open spec fn in_order(v: Seq<usize>, n: nat) -> bool {
    &&& v.len() == n
    &&& forall|k: int| 0 <= k < n ==> #[trigger] v[k] == k
}

/// The indices `0..n`, in order.
fn indices(n: usize) -> (r: Vec<usize>)
    ensures
        in_order(r@, n as nat),
{
    let mut r: Vec<usize> = Vec::new();
    let mut k: usize = 0;
    while k < n
        invariant
            k <= n,
            in_order(r@, k as nat),
        decreases n - k,
    {
        r.push(k);
        k = k + 1;
    }
    r
}

/// The `Arguments` impl of a struct: its `Arguments` tuple has at element
/// `k` the type of field `tuple_types[k]`, and `from_arguments` fills field
/// `i` from element `from[i]`.
pub struct TraitImplPlan {
    pub tuple_types: Vec<usize>,
    pub from: Vec<usize>,
}

pub open spec fn trait_impl_ok(t: TraitImplPlan, n: nat) -> bool {
    &&& in_order(t.tuple_types@, n)
    &&& in_order(t.from@, n)
}

/// The `Arguments` impl of a struct with the named fields `fields`: the
/// tuple of their types in order, and field `i` taken from element `i`.
pub fn arguments_trait_impl(fields: &Vec<Field>) -> (r: TraitImplPlan)
    ensures
        trait_impl_ok(r, fields@.len()),
{
    TraitImplPlan { tuple_types: indices(fields.len()), from: indices(fields.len()) }
}

/// The name of the transform macro of a type named `name`.
pub open spec fn transform_macro_ident(name: Seq<char>) -> Seq<char> {
    "wgsl_gpu_"@ + unraw(name) + "_transform"@
}

pub open spec fn data_macro_field_ok(d: DataMacroField, i: nat, v: ArgumentsFieldAttributesV) -> bool {
    &&& d.field == i
    &&& spirv_result_view(d.input) == spec_input_attribute(v)
    &&& spirv_result_view(d.output) == spec_output_attribute(v)
}

/// The transform macro of the struct named `name`.
pub fn arguments_data_macro(
    name: &String,
    fields: &Vec<Field>,
    fields_attributes: &Vec<ArgumentsFieldAttributes>,
) -> (r: DataMacroPlan)
    requires
        forall|i: int|
            0 <= i < fields@.len() && 0 <= i < fields_attributes@.len() ==> !bad_input(
                #[trigger] fields_attributes@[i]@,
            ) && !bad_output(fields_attributes@[i]@),
    ensures
        r.macro_name@ == transform_macro_ident(name@),
        in_order(r.passed@, fields@.len()),
        r.fields@.len() == if fields@.len() < fields_attributes@.len() {
            fields@.len()
        } else {
            fields_attributes@.len()
        },
        forall|i: int|
            0 <= i < r.fields@.len() ==> data_macro_field_ok(
                #[trigger] r.fields@[i],
                i as nat,
                fields_attributes@[i]@,
            ),
{
    let bare = unraw_ident(name);
    let macro_name = concat3("wgsl_gpu_", bare.as_str(), "_transform");
    let mut out: Vec<DataMacroField> = Vec::new();
    let mut i: usize = 0;
    while i < fields.len() && i < fields_attributes.len()
        invariant
            i <= fields@.len(),
            i <= fields_attributes@.len(),
            out@.len() == i,
            forall|j: int|
                0 <= j < fields@.len() && 0 <= j < fields_attributes@.len() ==> !bad_input(
                    #[trigger] fields_attributes@[j]@,
                ) && !bad_output(fields_attributes@[j]@),
            forall|j: int|
                0 <= j < i ==> data_macro_field_ok(#[trigger] out@[j], j as nat, fields_attributes@[j]@),
        decreases fields@.len() - i,
    {
        let a = &fields_attributes[i];
        assert(!bad_input(fields_attributes@[i as int]@) && !bad_output(fields_attributes@[i as int]@));
        out.push(DataMacroField { field: i, input: a.input_attribute(), output: a.output_attribute() });
        i = i + 1;
    }
    DataMacroPlan { macro_name, fields: out, passed: indices(fields.len()) }
}

/// What the `Arguments` derive generates: the `ATTRIBUTES` table (if asked
/// for), the `Arguments` impl and the transform macro.
pub struct ArgumentsPlan {
    pub locations: Option<Vec<Result<LocationEntry, MacroError>>>,
    pub trait_impl: TraitImplPlan,
    pub data_macro: DataMacroPlan,
}

/// The settings of all fields, or the error of the first field that fails.
pub open spec fn all_field_settings(fields: Seq<Field>) -> Result<Seq<ArgumentsFieldAttributesV>, MacroErrorV>
    decreases fields.len(),
{
    if fields.len() == 0 {
        Ok(seq![])
    } else {
        match all_field_settings(fields.drop_last()) {
            Err(e) => Err(e),
            Ok(vs) => match field_settings_of(fields.last(), (fields.len() - 1) as nat) {
                Err(e) => Err(e),
                Ok(v) => Ok(vs.push(v)),
            },
        }
    }
}

/// The fields with a location can be uploaded as vertex attributes (by
/// their settings' views).
pub open spec fn locations_supported_v(fields: Seq<Field>, vs: Seq<ArgumentsFieldAttributesV>) -> bool {
    forall|i: int|
        0 <= i < fields.len() && 0 <= i < vs.len() && (#[trigger] vs[i]).location is Some
            ==> spec_vertex_format(fields[i].ty) is Ok
}

/// The `ATTRIBUTES` table that the settings `vs` of the fields give.
pub open spec fn locations_ok(
    r: Option<Vec<Result<LocationEntry, MacroError>>>,
    asked: bool,
    fields: Seq<Field>,
    vs: Seq<ArgumentsFieldAttributesV>,
) -> bool {
    &&& r is None <==> !asked
    &&& r matches Some(v) ==> {
        &&& v@.len() == fields.len()
        &&& forall|i: int|
            0 <= i < v@.len() ==> location_result_view(#[trigger] v@[i]) == spec_location_entry(
                i as nat,
                fields[i],
                vs[i],
            )
    }
}

/// The transform macro that the settings `vs` of the fields give.
pub open spec fn data_macro_ok(p: DataMacroPlan, name: Seq<char>, vs: Seq<ArgumentsFieldAttributesV>) -> bool {
    &&& p.macro_name@ == transform_macro_ident(name)
    &&& in_order(p.passed@, vs.len())
    &&& p.fields@.len() == vs.len()
    &&& forall|i: int| 0 <= i < vs.len() ==> data_macro_field_ok(#[trigger] p.fields@[i], i as nat, vs[i])
}

proof fn lemma_all_settings_len(fields: Seq<Field>)
    ensures
        all_field_settings(fields) matches Ok(vs) ==> vs.len() == fields.len(),
    decreases fields.len(),
{
    if fields.len() > 0 {
        lemma_all_settings_len(fields.drop_last());
    }
}

/// What the `Arguments` derive generates for the struct `name` with settings
/// `attributes` and named fields `fields`: the error of the first field whose
/// settings cannot be read, else the `ATTRIBUTES` table (when asked for) and
/// the transform macro.
pub fn arguments(attributes: &ArgumentsAttributes, name: &String, fields: &Vec<Field>) -> (r: Result<
    ArgumentsPlan,
    MacroError,
>)
    requires
        attributes.attributes ==> (all_field_settings(fields@) matches Ok(vs) ==> locations_supported_v(
            fields@,
            vs,
        )),
        all_field_settings(fields@) matches Ok(vs) ==> builtins_formattable(vs),
    ensures
        match r {
            Err(e) => all_field_settings(fields@) == Err::<Seq<ArgumentsFieldAttributesV>, MacroErrorV>(e@),
            Ok(p) => all_field_settings(fields@) matches Ok(vs) && locations_ok(
                p.locations,
                attributes.attributes,
                fields@,
                vs,
            ) && data_macro_ok(p.data_macro, name@, vs) && trait_impl_ok(p.trait_impl, fields@.len()),
        },
{
    proof {
        lemma_all_settings_len(fields@);
    }
    let fields_attributes = match ArgumentsFieldAttributes::parse(fields) {
        Ok(v) => v,
        Err(e) => {
            return Err(e);
        },
    };
    let ghost vs = settings_view(fields_attributes@);
    assert forall|i: int| 0 <= i < fields_attributes@.len() implies #[trigger] vs[i] == fields_attributes@[i]@ by {}
    assert(attributes.attributes ==> locations_supported(fields@, fields_attributes@)) by {
        if attributes.attributes {
            assert forall|i: int|
                0 <= i < fields@.len() && 0 <= i < fields_attributes@.len() && (
                #[trigger] fields_attributes@[i]).location is Some implies spec_vertex_format(fields@[i].ty) is Ok by {
                assert(vs[i].location is Some);
            }
        }
    }
    let locations = arguments_locations(attributes, fields, &fields_attributes);
    let trait_impl = arguments_trait_impl(fields);
    assert forall|i: int|
        0 <= i < fields@.len() && 0 <= i < fields_attributes@.len() implies !bad_input(
            #[trigger] fields_attributes@[i]@,
        ) && !bad_output(fields_attributes@[i]@) by {
        assert(vs[i] == fields_attributes@[i]@);
    }
    let data_macro = arguments_data_macro(name, fields, &fields_attributes);
    Ok(ArgumentsPlan { locations, trait_impl, data_macro })
}

/// A field with a location is bound at that location both when the struct
/// is passed in and when it is returned; its builtin names are then unused.
pub proof fn lemma_location_both_ways(v: ArgumentsFieldAttributesV)
    requires
        v.location is Some,
    ensures
        spec_input_attribute(v) == Ok::<SpirvAttrV, MacroErrorV>(SpirvAttrV::Location(v.location->Some_0)),
        spec_output_attribute(v) == spec_input_attribute(v),
{
}

/// The transform macro and the `Arguments` impl fit together: the tuple
/// that the macro hands to `from_arguments` holds at the element from which
/// field `i` is filled the shader parameter of field `i`, and that element
/// has field `i`'s type; so the struct is rebuilt field for field.
pub proof fn lemma_from_arguments_rebuilds(p: ArgumentsPlan, name: Seq<char>, vs: Seq<ArgumentsFieldAttributesV>)
    requires
        data_macro_ok(p.data_macro, name, vs),
        trait_impl_ok(p.trait_impl, vs.len()),
    ensures
        forall|i: int|
            0 <= i < vs.len() ==> {
                let k = #[trigger] p.trait_impl.from@[i] as int;
                &&& 0 <= k < p.data_macro.passed@.len()
                &&& p.data_macro.passed@[k] == i
                &&& p.trait_impl.tuple_types@[k] == i
            },
{
}

/// Concatenated argument lists hold a name exactly when one of them does.
proof fn lemma_has_concat(a: Seq<Arg>, b: Seq<Arg>, name: Seq<char>)
    ensures
        has_arg(a + b, name) == (has_arg(a, name) || has_arg(b, name)),
{
    if has_arg(a, name) {
        let i = choose|i: int| 0 <= i < a.len() && crate::syntax::arg_is(#[trigger] a[i], name);
        assert((a + b)[i] == a[i]);
    }
    if has_arg(b, name) {
        let i = choose|i: int| 0 <= i < b.len() && crate::syntax::arg_is(#[trigger] b[i], name);
        assert((a + b)[a.len() + i] == b[i]);
    }
    if has_arg(a + b, name) {
        let i = choose|i: int| 0 <= i < (a + b).len() && crate::syntax::arg_is(#[trigger] (a + b)[i], name);
        if i < a.len() {
            assert(a[i] == (a + b)[i]);
        } else {
            assert(b[i - a.len()] == (a + b)[i]);
        }
    }
}

/// The arguments of several `wgsl_gpu` attributes on a struct count
/// together: a name occurs in them exactly when some such attribute has it.
pub proof fn lemma_collected_has(attrs: Seq<Attribute>, name: Seq<char>, key: Seq<char>)
    ensures
        collected_args(attrs, name) matches Ok(all) ==> (has_arg(all, key) <==> exists|i: int|
            0 <= i < attrs.len() && attr_is(#[trigger] attrs[i], name) && (attrs[i].args matches Ok(v)
                && has_arg(v@, key))),
    decreases attrs.len(),
{
    if attrs.len() > 0 {
        let rest = attrs.drop_last();
        lemma_collected_has(rest, name, key);
        assert forall|i: int| 0 <= i < rest.len() implies rest[i] == attrs[i] by {}
        if let Ok(all) = collected_args(attrs, name) {
            let prev = collected_args(rest, name)->Ok_0;
            let last = attrs.last();
            assert(attrs[attrs.len() - 1] == last);
            if attr_is(last, name) {
                let v = last.args->Ok_0;
                lemma_has_concat(prev, v@, key);
            }
            if exists|i: int| 0 <= i < attrs.len() && attr_is(#[trigger] attrs[i], name) && (attrs[i].args matches Ok(v) && has_arg(v@, key)) {
                let i = choose|i: int| 0 <= i < attrs.len() && attr_is(#[trigger] attrs[i], name) && (attrs[i].args matches Ok(v) && has_arg(v@, key));
                if i < rest.len() {
                    assert(rest[i] == attrs[i]);
                }
            }
        }
    }
}

/// What the `Arguments` derive does with a struct.
pub enum ArgumentsOutcome {
    Generated(ArgumentsPlan),
    Refused(MacroError),
    /// The vertex attribute of the field at this index, the first such, has
    /// no format: the derive panics.
    Panics(usize, VertexTypeError),
    /// `format_ident!` cannot make an identifier of this builtin name, which
    /// binds the field at this index: the derive panics. The input names
    /// are written first, so this is the first field with such an input
    /// name, else the first with such an output name.
    InvalidBuiltin(usize, String),
}

/// What the `Arguments` derive does with the struct `name` whose attributes
/// are `struct_attrs` and whose named fields are `fields`: the error of its
/// settings or of the first field whose settings cannot be read; else, when
/// the struct asks for the `ATTRIBUTES` table, a panic at the first field
/// with a location but no vertex format; else everything generated for it.
pub fn derive_arguments(struct_attrs: &Vec<Attribute>, name: &String, fields: &Vec<Field>) -> (r:
    ArgumentsOutcome)
    ensures
        match struct_settings_of(struct_attrs@) {
            Err(e) => r matches ArgumentsOutcome::Refused(x) && x@ == e,
            Ok(asked) => match all_field_settings(fields@) {
                Err(e) => r matches ArgumentsOutcome::Refused(x) && x@ == e,
                Ok(vs) => if asked && !locations_supported_v(fields@, vs) {
                    r matches ArgumentsOutcome::Panics(field, error) && field < fields@.len()
                        && field < vs.len() && vs[field as int].location is Some && spec_vertex_format(
                        fields@[field as int].ty,
                    ) == Err::<VertexFormat, VertexTypeErrorV>(error@) && forall|j: int|
                        0 <= j < field ==> !((#[trigger] vs[j]).location is Some && spec_vertex_format(
                            fields@[j].ty,
                        ) is Err)
                } else if exists|i: int| 0 <= i < vs.len() && bad_input(#[trigger] vs[i]) {
                    r matches ArgumentsOutcome::InvalidBuiltin(field, text) && field < vs.len() && bad_input(
                        vs[field as int],
                    ) && vs[field as int].input == Some(text@) && forall|j: int|
                        0 <= j < field ==> !bad_input(#[trigger] vs[j])
                } else if exists|i: int| 0 <= i < vs.len() && bad_output(#[trigger] vs[i]) {
                    r matches ArgumentsOutcome::InvalidBuiltin(field, text) && field < vs.len() && bad_output(
                        vs[field as int],
                    ) && vs[field as int].output == Some(text@) && forall|j: int|
                        0 <= j < field ==> !bad_output(#[trigger] vs[j])
                } else {
                    r matches ArgumentsOutcome::Generated(p) && locations_ok(
                        p.locations,
                        asked,
                        fields@,
                        vs,
                    ) && data_macro_ok(p.data_macro, name@, vs) && trait_impl_ok(p.trait_impl, fields@.len())
                },
            },
        },
{
    let attributes = match ArgumentsAttributes::from_input(struct_attrs) {
        Ok(a) => a,
        Err(e) => {
            return ArgumentsOutcome::Refused(e);
        },
    };
    let settings = match ArgumentsFieldAttributes::parse(fields) {
        Ok(v) => v,
        Err(e) => {
            return ArgumentsOutcome::Refused(e);
        },
    };
    proof {
        lemma_all_settings_len(fields@);
    }
    let ghost vs = settings_view(settings@);
    if attributes.attributes {
        let mut i: usize = 0;
        while i < fields.len()
            invariant
                i <= fields@.len(),
                settings@.len() == fields@.len(),
                vs == settings_view(settings@),
                attributes.attributes,
                struct_settings_of(struct_attrs@) == Ok::<bool, MacroErrorV>(attributes.attributes),
                all_field_settings(fields@) == Ok::<Seq<ArgumentsFieldAttributesV>, MacroErrorV>(vs),
                forall|j: int|
                    0 <= j < i ==> !((#[trigger] vs[j]).location is Some && spec_vertex_format(
                        fields@[j].ty,
                    ) is Err),
            decreases fields@.len() - i,
        {
            assert(vs[i as int] == settings@[i as int]@);
            if settings[i].location.is_some() {
                match vertex_format(&fields[i].ty) {
                    Err(error) => {
                        assert(spec_vertex_format(fields@[i as int].ty) == Err::<VertexFormat, VertexTypeErrorV>(error@));
                        assert(!locations_supported_v(fields@, vs)) by {
                            assert(vs[i as int].location is Some);
                        }
                        return ArgumentsOutcome::Panics(i, error);
                    },
                    Ok(_) => {},
                }
            }
            i = i + 1;
        }
        assert(locations_supported_v(fields@, vs)) by {
            assert forall|j: int|
                0 <= j < fields@.len() && 0 <= j < vs.len() && (#[trigger] vs[j]).location is Some
                    implies spec_vertex_format(fields@[j].ty) is Ok by {}
        }
    }
    let mut i: usize = 0;
    while i < settings.len()
        invariant
            i <= settings@.len(),
            vs == settings_view(settings@),
            vs.len() == settings@.len(),
            struct_settings_of(struct_attrs@) == Ok::<bool, MacroErrorV>(attributes.attributes),
            all_field_settings(fields@) == Ok::<Seq<ArgumentsFieldAttributesV>, MacroErrorV>(vs),
            attributes.attributes ==> locations_supported_v(fields@, vs),
            forall|j: int| 0 <= j < i ==> !bad_input(#[trigger] vs[j]),
        decreases settings@.len() - i,
    {
        assert(vs[i as int] == settings@[i as int]@);
        if settings[i].location.is_none() {
            if let Some(t) = &settings[i].input {
                if !formattable_ident(t.as_str()) {
                    assert(bad_input(vs[i as int]) || bad_output(vs[i as int]));
                    return ArgumentsOutcome::InvalidBuiltin(i, t.clone());
                }
            }
        }
        i = i + 1;
    }
    let mut i: usize = 0;
    while i < settings.len()
        invariant
            i <= settings@.len(),
            vs == settings_view(settings@),
            vs.len() == settings@.len(),
            struct_settings_of(struct_attrs@) == Ok::<bool, MacroErrorV>(attributes.attributes),
            all_field_settings(fields@) == Ok::<Seq<ArgumentsFieldAttributesV>, MacroErrorV>(vs),
            attributes.attributes ==> locations_supported_v(fields@, vs),
            forall|j: int| 0 <= j < vs.len() ==> !bad_input(#[trigger] vs[j]),
            forall|j: int| 0 <= j < i ==> !bad_output(#[trigger] vs[j]),
        decreases settings@.len() - i,
    {
        assert(vs[i as int] == settings@[i as int]@);
        if settings[i].location.is_none() {
            if let Some(t) = &settings[i].output {
                if !formattable_ident(t.as_str()) {
                    assert(bad_input(vs[i as int]) || bad_output(vs[i as int]));
                    return ArgumentsOutcome::InvalidBuiltin(i, t.clone());
                }
            }
        }
        i = i + 1;
    }
    assert(builtins_formattable(vs));
    match arguments(&attributes, name, fields) {
        Ok(p) => ArgumentsOutcome::Generated(p),
        Err(e) => ArgumentsOutcome::Refused(e),
    }
}

} // verus!
