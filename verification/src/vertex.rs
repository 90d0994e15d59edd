//! The vertex format that a field type is uploaded as.
use vstd::prelude::*;
use crate::syntax::{ArrayLen, TypeShape, text_is};
use crate::text::{IntParseFailure, parse_unsigned, parse_unsigned_text};

verus! {

/// A vertex attribute format, named as the GPU API names it.
#[derive(Debug, Clone, Copy, PartialEq, Eq, Structural)]
pub enum VertexFormat {
    Float32,
    Float32x2,
    Float32x3,
    Float32x4,
    Uint32,
    Uint32x2,
    Uint32x3,
    Uint32x4,
    Sint32,
    Sint32x2,
    Sint32x3,
    Sint32x4,
}

impl VertexFormat {
    pub open spec fn spec_name(self) -> Seq<char> {
        match self {
            VertexFormat::Float32 => "Float32"@,
            VertexFormat::Float32x2 => "Float32x2"@,
            VertexFormat::Float32x3 => "Float32x3"@,
            VertexFormat::Float32x4 => "Float32x4"@,
            VertexFormat::Uint32 => "Uint32"@,
            VertexFormat::Uint32x2 => "Uint32x2"@,
            VertexFormat::Uint32x3 => "Uint32x3"@,
            VertexFormat::Uint32x4 => "Uint32x4"@,
            VertexFormat::Sint32 => "Sint32"@,
            VertexFormat::Sint32x2 => "Sint32x2"@,
            VertexFormat::Sint32x3 => "Sint32x3"@,
            VertexFormat::Sint32x4 => "Sint32x4"@,
        }
    }

    /// The name of the format's variant in the GPU API.
    pub fn name(&self) -> (s: &'static str)
        ensures
            s@ == self.spec_name(),
    {
        match self {
            VertexFormat::Float32 => "Float32",
            VertexFormat::Float32x2 => "Float32x2",
            VertexFormat::Float32x3 => "Float32x3",
            VertexFormat::Float32x4 => "Float32x4",
            VertexFormat::Uint32 => "Uint32",
            VertexFormat::Uint32x2 => "Uint32x2",
            VertexFormat::Uint32x3 => "Uint32x3",
            VertexFormat::Uint32x4 => "Uint32x4",
            VertexFormat::Sint32 => "Sint32",
            VertexFormat::Sint32x2 => "Sint32x2",
            VertexFormat::Sint32x3 => "Sint32x3",
            VertexFormat::Sint32x4 => "Sint32x4",
        }
    }
}

/// Why a type has no vertex format.
pub enum VertexTypeError {
    /// A path type whose last segment is no supported scalar or vector.
    UnsupportedType(String),
    /// A path type without segments.
    EmptyPath,
    /// An array whose element type is no path.
    UnsupportedElement,
    /// An array whose length is a literal but no integer.
    LengthNotInteger,
    /// An array whose length is no literal.
    LengthNotLiteral,
    /// An array length that does not fit in `usize`.
    LengthParse(IntParseFailure),
    /// An array of a supported length pattern that is not supported.
    UnsupportedArray(String, u64),
    /// A type that is neither a path nor an array.
    InvalidType,
}

pub enum VertexTypeErrorV {
    UnsupportedType(Seq<char>),
    EmptyPath,
    UnsupportedElement,
    LengthNotInteger,
    LengthNotLiteral,
    LengthParse(IntParseFailure),
    UnsupportedArray(Seq<char>, nat),
    InvalidType,
}

impl View for VertexTypeError {
    type V = VertexTypeErrorV;

    open spec fn view(&self) -> VertexTypeErrorV {
        match self {
            VertexTypeError::UnsupportedType(n) => VertexTypeErrorV::UnsupportedType(n@),
            VertexTypeError::EmptyPath => VertexTypeErrorV::EmptyPath,
            VertexTypeError::UnsupportedElement => VertexTypeErrorV::UnsupportedElement,
            VertexTypeError::LengthNotInteger => VertexTypeErrorV::LengthNotInteger,
            VertexTypeError::LengthNotLiteral => VertexTypeErrorV::LengthNotLiteral,
            VertexTypeError::LengthParse(f) => VertexTypeErrorV::LengthParse(*f),
            VertexTypeError::UnsupportedArray(e, d) => VertexTypeErrorV::UnsupportedArray(e@, *d as nat),
            VertexTypeError::InvalidType => VertexTypeErrorV::InvalidType,
        }
    }
}

/// The format of a scalar or vector type, by the last segment of its path.
pub open spec fn scalar_format(name: Seq<char>) -> Option<VertexFormat> {
    if name == "f32"@ {
        Some(VertexFormat::Float32)
    } else if name == "Vec2"@ {
        Some(VertexFormat::Float32x2)
    } else if name == "Vec3"@ {
        Some(VertexFormat::Float32x3)
    } else if name == "Vec4"@ {
        Some(VertexFormat::Float32x4)
    } else if name == "u32"@ {
        Some(VertexFormat::Uint32)
    } else if name == "UVec2"@ {
        Some(VertexFormat::Uint32x2)
    } else if name == "UVec3"@ {
        Some(VertexFormat::Uint32x3)
    } else if name == "UVec4"@ {
        Some(VertexFormat::Uint32x4)
    } else if name == "i32"@ {
        Some(VertexFormat::Sint32)
    } else if name == "IVec2"@ {
        Some(VertexFormat::Sint32x2)
    } else if name == "IVec3"@ {
        Some(VertexFormat::Sint32x3)
    } else if name == "IVec4"@ {
        Some(VertexFormat::Sint32x4)
    } else {
        None
    }
}

/// The format of an array `[elem; dim]` of 32-bit scalars.
pub open spec fn array_format(elem: Seq<char>, dim: nat) -> Option<VertexFormat> {
    if elem == "f32"@ {
        if dim == 2 {
            Some(VertexFormat::Float32x2)
        } else if dim == 3 {
            Some(VertexFormat::Float32x3)
        } else if dim == 4 {
            Some(VertexFormat::Float32x4)
        } else {
            None
        }
    } else if elem == "u32"@ {
        if dim == 2 {
            Some(VertexFormat::Uint32x2)
        } else if dim == 3 {
            Some(VertexFormat::Uint32x3)
        } else if dim == 4 {
            Some(VertexFormat::Uint32x4)
        } else {
            None
        }
    } else if elem == "i32"@ {
        if dim == 2 {
            Some(VertexFormat::Sint32x2)
        } else if dim == 3 {
            Some(VertexFormat::Sint32x3)
        } else if dim == 4 {
            Some(VertexFormat::Sint32x4)
        } else {
            None
        }
    } else {
        None
    }
}

/// The vertex format of a field type: scalars and `glam` vectors by the last
/// segment of their path, and arrays of 2 to 4 `f32`, `u32` or `i32`.
pub open spec fn spec_vertex_format(ty: TypeShape) -> Result<VertexFormat, VertexTypeErrorV> {
    match ty {
        TypeShape::Path(segs) => if segs@.len() == 0 {
            Err(VertexTypeErrorV::EmptyPath)
        } else {
            match scalar_format(segs@.last()@) {
                Some(f) => Ok(f),
                None => Err(VertexTypeErrorV::UnsupportedType(segs@.last()@)),
            }
        },
        TypeShape::Array(elem, len) => match *elem {
            TypeShape::Path(es) => if es@.len() == 0 {
                Err(VertexTypeErrorV::EmptyPath)
            } else {
                match len {
                    ArrayLen::Int(d) => match parse_unsigned(d@, usize::MAX as nat) {
                        Err(f) => Err(VertexTypeErrorV::LengthParse(f)),
                        Ok(dim) => match array_format(es@.last()@, dim) {
                            Some(f) => Ok(f),
                            None => Err(VertexTypeErrorV::UnsupportedArray(es@.last()@, dim)),
                        },
                    },
                    ArrayLen::OtherLit => Err(VertexTypeErrorV::LengthNotInteger),
                    ArrayLen::NotLit => Err(VertexTypeErrorV::LengthNotLiteral),
                }
            },
            _ => Err(VertexTypeErrorV::UnsupportedElement),
        },
        _ => Err(VertexTypeErrorV::InvalidType),
    }
}

fn scalar_format_of(name: &String) -> (r: Option<VertexFormat>)
    ensures
        r == scalar_format(name@),
{
    if text_is(name, "f32") {
        Some(VertexFormat::Float32)
    } else if text_is(name, "Vec2") {
        Some(VertexFormat::Float32x2)
    } else if text_is(name, "Vec3") {
        Some(VertexFormat::Float32x3)
    } else if text_is(name, "Vec4") {
        Some(VertexFormat::Float32x4)
    } else if text_is(name, "u32") {
        Some(VertexFormat::Uint32)
    } else if text_is(name, "UVec2") {
        Some(VertexFormat::Uint32x2)
    } else if text_is(name, "UVec3") {
        Some(VertexFormat::Uint32x3)
    } else if text_is(name, "UVec4") {
        Some(VertexFormat::Uint32x4)
    } else if text_is(name, "i32") {
        Some(VertexFormat::Sint32)
    } else if text_is(name, "IVec2") {
        Some(VertexFormat::Sint32x2)
    } else if text_is(name, "IVec3") {
        Some(VertexFormat::Sint32x3)
    } else if text_is(name, "IVec4") {
        Some(VertexFormat::Sint32x4)
    } else {
        None
    }
}

fn array_format_of(elem: &String, dim: u64) -> (r: Option<VertexFormat>)
    ensures
        r == array_format(elem@, dim as nat),
{
    if text_is(elem, "f32") {
        if dim == 2 {
            Some(VertexFormat::Float32x2)
        } else if dim == 3 {
            Some(VertexFormat::Float32x3)
        } else if dim == 4 {
            Some(VertexFormat::Float32x4)
        } else {
            None
        }
    } else if text_is(elem, "u32") {
        if dim == 2 {
            Some(VertexFormat::Uint32x2)
        } else if dim == 3 {
            Some(VertexFormat::Uint32x3)
        } else if dim == 4 {
            Some(VertexFormat::Uint32x4)
        } else {
            None
        }
    } else if text_is(elem, "i32") {
        if dim == 2 {
            Some(VertexFormat::Sint32x2)
        } else if dim == 3 {
            Some(VertexFormat::Sint32x3)
        } else if dim == 4 {
            Some(VertexFormat::Sint32x4)
        } else {
            None
        }
    } else {
        None
    }
}

/// The vertex format of a field type, or why it has none.
pub fn vertex_format(ty: &TypeShape) -> (r: Result<VertexFormat, VertexTypeError>)
    ensures
        match r {
            Ok(f) => spec_vertex_format(*ty) == Ok::<VertexFormat, VertexTypeErrorV>(f),
            Err(e) => spec_vertex_format(*ty) == Err::<VertexFormat, VertexTypeErrorV>(e@),
        },
{
    match ty {
        TypeShape::Path(segs) => {
            if segs.len() == 0 {
                return Err(VertexTypeError::EmptyPath);
            }
            let last = &segs[segs.len() - 1];
            match scalar_format_of(last) {
                Some(f) => Ok(f),
                None => Err(VertexTypeError::UnsupportedType(last.clone())),
            }
        },
        TypeShape::Array(elem, len) => match &**elem {
            TypeShape::Path(es) => {
                if es.len() == 0 {
                    return Err(VertexTypeError::EmptyPath);
                }
                let last = &es[es.len() - 1];
                match len {
                    ArrayLen::Int(d) => match parse_unsigned_text(
                        d.as_str(),
                        usize::MAX as u64,
                    ) {
                        Err(f) => Err(VertexTypeError::LengthParse(f)),
                        Ok(dim) => match array_format_of(last, dim) {
                            Some(f) => Ok(f),
                            None => Err(VertexTypeError::UnsupportedArray(last.clone(), dim)),
                        },
                    },
                    ArrayLen::OtherLit => Err(VertexTypeError::LengthNotInteger),
                    ArrayLen::NotLit => Err(VertexTypeError::LengthNotLiteral),
                }
            },
            _ => Err(VertexTypeError::UnsupportedElement),
        },
        _ => Err(VertexTypeError::InvalidType),
    }
}

/// The vertex format of a field type that has one.
pub fn rust_type_to_wgpu_attribute(ty: &TypeShape) -> (r: VertexFormat)
    requires
        spec_vertex_format(*ty) is Ok,
    ensures
        spec_vertex_format(*ty) == Ok::<VertexFormat, VertexTypeErrorV>(r),
{
    match vertex_format(ty) {
        Ok(f) => f,
        Err(_) => {
            assert(false);
            VertexFormat::Float32
        },
    }
}

/// The vector type whose components are the array's element: `Vec` for
/// `f32`, `UVec` for `u32`, `IVec` for `i32`.
pub open spec fn vector_prefix(elem: Seq<char>) -> Option<Seq<char>> {
    if elem == "f32"@ {
        Some("Vec"@)
    } else if elem == "u32"@ {
        Some("UVec"@)
    } else if elem == "i32"@ {
        Some("IVec"@)
    } else {
        None
    }
}

/// An array `[elem; n]` is uploaded exactly as the vector of `n` such
/// components is: arrays of 2 to 4 `f32`, `u32` or `i32` have the format of
/// `Vec2`..`Vec4`, `UVec2`..`UVec4`, `IVec2`..`IVec4`, and no other array has
/// a format.
pub proof fn lemma_array_as_vector(elem: Seq<char>, n: nat)
    ensures
        array_format(elem, n) is Some <==> (vector_prefix(elem) is Some && 2 <= n <= 4),
        array_format(elem, n) is Some ==> array_format(elem, n) == scalar_format(
            vector_prefix(elem)->Some_0 + seq![('0' as u8 + n) as char],
        ),
{
    reveal_strlit("f32");
    reveal_strlit("u32");
    reveal_strlit("i32");
    reveal_strlit("Vec");
    reveal_strlit("UVec");
    reveal_strlit("IVec");
    reveal_strlit("Vec2");
    reveal_strlit("Vec3");
    reveal_strlit("Vec4");
    reveal_strlit("UVec2");
    reveal_strlit("UVec3");
    reveal_strlit("UVec4");
    reveal_strlit("IVec2");
    reveal_strlit("IVec3");
    reveal_strlit("IVec4");
    assert(('0' as u8 + 2) as char == '2');
    assert(('0' as u8 + 3) as char == '3');
    assert(('0' as u8 + 4) as char == '4');
    if array_format(elem, n) is Some {
        let name = vector_prefix(elem)->Some_0 + seq![('0' as u8 + n) as char];
        if elem == "f32"@ {
            if n == 2 {
                assert(name =~= "Vec2"@);
                assert(scalar_format(name) == Some(VertexFormat::Float32x2));
            } else if n == 3 {
                assert(name =~= "Vec3"@);
                assert(name[3] != "Vec2"@[3]);
                assert(scalar_format(name) == Some(VertexFormat::Float32x3));
            } else if n == 4 {
                assert(name =~= "Vec4"@);
                assert(name[3] != "Vec2"@[3]);
                assert(name[3] != "Vec3"@[3]);
                assert(scalar_format(name) == Some(VertexFormat::Float32x4));
            }
        } else if elem == "u32"@ {
            if n == 2 {
                assert(name =~= "UVec2"@);
                assert(scalar_format(name) == Some(VertexFormat::Uint32x2));
            } else if n == 3 {
                assert(name =~= "UVec3"@);
                assert(name[4] != "UVec2"@[4]);
                assert(scalar_format(name) == Some(VertexFormat::Uint32x3));
            } else if n == 4 {
                assert(name =~= "UVec4"@);
                assert(name[4] != "UVec2"@[4]);
                assert(name[4] != "UVec3"@[4]);
                assert(scalar_format(name) == Some(VertexFormat::Uint32x4));
            }
        } else if elem == "i32"@ {
            if n == 2 {
                assert(name =~= "IVec2"@);
                assert(name[0] != "UVec2"@[0]);
                assert(name[0] != "UVec3"@[0]);
                assert(name[0] != "UVec4"@[0]);
                assert(scalar_format(name) == Some(VertexFormat::Sint32x2));
            } else if n == 3 {
                assert(name =~= "IVec3"@);
                assert(name[0] != "UVec2"@[0]);
                assert(name[0] != "UVec3"@[0]);
                assert(name[0] != "UVec4"@[0]);
                assert(name[4] != "IVec2"@[4]);
                assert(scalar_format(name) == Some(VertexFormat::Sint32x3));
            } else if n == 4 {
                assert(name =~= "IVec4"@);
                assert(name[0] != "UVec2"@[0]);
                assert(name[0] != "UVec3"@[0]);
                assert(name[0] != "UVec4"@[0]);
                assert(name[4] != "IVec2"@[4]);
                assert(name[4] != "IVec3"@[4]);
                assert(scalar_format(name) == Some(VertexFormat::Sint32x4));
            }
        }
    }
}

/// The GPU format of each supported field type: the scalar `f32`, `u32`
/// and `i32` are uploaded as one float, unsigned or signed 32-bit component,
/// and the `glam` vectors `Vec2`..`Vec4`, `UVec2`..`UVec4` and
/// `IVec2`..`IVec4` as 2 to 4 such components; a path type is known by its
/// last segment, whatever comes before it.
pub proof fn lemma_path_formats(segs: Vec<String>)
    requires
        segs@.len() > 0,
    ensures
        ({
            let n = segs@.last()@;
            let f = spec_vertex_format(TypeShape::Path(segs));
            &&& n == "f32"@ ==> f == Ok::<VertexFormat, VertexTypeErrorV>(VertexFormat::Float32)
            &&& n == "u32"@ ==> f == Ok::<VertexFormat, VertexTypeErrorV>(VertexFormat::Uint32)
            &&& n == "i32"@ ==> f == Ok::<VertexFormat, VertexTypeErrorV>(VertexFormat::Sint32)
            &&& n == "Vec2"@ ==> f == Ok::<VertexFormat, VertexTypeErrorV>(VertexFormat::Float32x2)
            &&& n == "Vec3"@ ==> f == Ok::<VertexFormat, VertexTypeErrorV>(VertexFormat::Float32x3)
            &&& n == "Vec4"@ ==> f == Ok::<VertexFormat, VertexTypeErrorV>(VertexFormat::Float32x4)
            &&& n == "UVec2"@ ==> f == Ok::<VertexFormat, VertexTypeErrorV>(VertexFormat::Uint32x2)
            &&& n == "UVec3"@ ==> f == Ok::<VertexFormat, VertexTypeErrorV>(VertexFormat::Uint32x3)
            &&& n == "UVec4"@ ==> f == Ok::<VertexFormat, VertexTypeErrorV>(VertexFormat::Uint32x4)
            &&& n == "IVec2"@ ==> f == Ok::<VertexFormat, VertexTypeErrorV>(VertexFormat::Sint32x2)
            &&& n == "IVec3"@ ==> f == Ok::<VertexFormat, VertexTypeErrorV>(VertexFormat::Sint32x3)
            &&& n == "IVec4"@ ==> f == Ok::<VertexFormat, VertexTypeErrorV>(VertexFormat::Sint32x4)
        }),
{
    reveal_strlit("f32");
    reveal_strlit("u32");
    reveal_strlit("i32");
    reveal_strlit("Vec2");
    reveal_strlit("Vec3");
    reveal_strlit("Vec4");
    reveal_strlit("UVec2");
    reveal_strlit("UVec3");
    reveal_strlit("UVec4");
    reveal_strlit("IVec2");
    reveal_strlit("IVec3");
    reveal_strlit("IVec4");
    let n = segs@.last()@;
    assert(scalar_format("f32"@) == Some(VertexFormat::Float32));
    assert(scalar_format("Vec2"@) == Some(VertexFormat::Float32x2)) by {
        assert("Vec2"@.len() != "f32"@.len());
    }
    assert(scalar_format("Vec3"@) == Some(VertexFormat::Float32x3)) by {
        assert("Vec3"@.len() != "f32"@.len());
        assert("Vec3"@[3] != "Vec2"@[3]);
    }
    assert(scalar_format("Vec4"@) == Some(VertexFormat::Float32x4)) by {
        assert("Vec4"@[3] != "Vec2"@[3]);
        assert("Vec4"@[3] != "Vec3"@[3]);
    }
    assert(scalar_format("u32"@) == Some(VertexFormat::Uint32)) by {
        assert("u32"@[0] != "f32"@[0]);
    }
    assert(scalar_format("UVec2"@) == Some(VertexFormat::Uint32x2)) by {
        assert("UVec2"@.len() != "Vec2"@.len() && "UVec2"@.len() != "f32"@.len());
    }
    assert(scalar_format("UVec3"@) == Some(VertexFormat::Uint32x3)) by {
        assert("UVec3"@.len() != "Vec2"@.len() && "UVec3"@.len() != "f32"@.len());
        assert("UVec3"@[4] != "UVec2"@[4]);
    }
    assert(scalar_format("UVec4"@) == Some(VertexFormat::Uint32x4)) by {
        assert("UVec4"@.len() != "Vec2"@.len() && "UVec4"@.len() != "f32"@.len());
        assert("UVec4"@[4] != "UVec2"@[4]);
        assert("UVec4"@[4] != "UVec3"@[4]);
    }
    assert(scalar_format("i32"@) == Some(VertexFormat::Sint32)) by {
        assert("i32"@[0] != "f32"@[0]);
        assert("i32"@[0] != "u32"@[0]);
    }
    assert(scalar_format("IVec2"@) == Some(VertexFormat::Sint32x2)) by {
        assert("IVec2"@[0] != "UVec2"@[0]);
        assert("IVec2"@[0] != "UVec3"@[0]);
        assert("IVec2"@[0] != "UVec4"@[0]);
    }
    assert(scalar_format("IVec3"@) == Some(VertexFormat::Sint32x3)) by {
        assert("IVec3"@[0] != "UVec2"@[0]);
        assert("IVec3"@[0] != "UVec3"@[0]);
        assert("IVec3"@[0] != "UVec4"@[0]);
        assert("IVec3"@[4] != "IVec2"@[4]);
    }
    assert(scalar_format("IVec4"@) == Some(VertexFormat::Sint32x4)) by {
        assert("IVec4"@[0] != "UVec2"@[0]);
        assert("IVec4"@[0] != "UVec3"@[0]);
        assert("IVec4"@[0] != "UVec4"@[0]);
        assert("IVec4"@[4] != "IVec2"@[4]);
        assert("IVec4"@[4] != "IVec3"@[4]);
    }
}

/// Arrays of 2 to 4 `f32`, `u32` or `i32` are uploaded as that many float,
/// unsigned or signed 32-bit components.
pub proof fn lemma_array_formats(elem: Seq<char>, n: nat)
    ensures
        elem == "f32"@ && n == 2 ==> array_format(elem, n) == Some(VertexFormat::Float32x2),
        elem == "f32"@ && n == 3 ==> array_format(elem, n) == Some(VertexFormat::Float32x3),
        elem == "f32"@ && n == 4 ==> array_format(elem, n) == Some(VertexFormat::Float32x4),
        elem == "u32"@ && n == 2 ==> array_format(elem, n) == Some(VertexFormat::Uint32x2),
        elem == "u32"@ && n == 3 ==> array_format(elem, n) == Some(VertexFormat::Uint32x3),
        elem == "u32"@ && n == 4 ==> array_format(elem, n) == Some(VertexFormat::Uint32x4),
        elem == "i32"@ && n == 2 ==> array_format(elem, n) == Some(VertexFormat::Sint32x2),
        elem == "i32"@ && n == 3 ==> array_format(elem, n) == Some(VertexFormat::Sint32x3),
        elem == "i32"@ && n == 4 ==> array_format(elem, n) == Some(VertexFormat::Sint32x4),
{
    reveal_strlit("f32");
    reveal_strlit("u32");
    reveal_strlit("i32");
    if elem == "u32"@ {
        assert(elem[0] != "f32"@[0]);
    } else if elem == "i32"@ {
        assert(elem[0] != "f32"@[0]);
        assert(elem[0] != "u32"@[0]);
    }
}

} // verus!
