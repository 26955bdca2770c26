//! Small rules for reading asset files: the lines of a beat map, the
//! illumination model of a material, the directory of a path.
use vstd::prelude::*;
use vstd::string::StrSliceExecFns;

verus! {

/// How a material is lit, by its number in a material file.
#[derive(Debug, Clone, Copy, PartialEq, Eq, Structural)]
pub enum IlluminationModel {
    ColorOnAmbientOff,
    ColorOnAmbientOn,
    HighlightOn,
    ReflectionOnAndRayTraceOn,
    TransparencyGlassOnReflectionRayTraceOn,
    ReflectionFresnelOnAndRayTraceOn,
    TransparencyRefractionOnReflectionFresnelOffRayTraceOn,
    TransparencyRefractionOnReflectionFresnelOnRayTraceOn,
    ReflectionOnRayTraceOff,
    TransparencyGlassOnReflectionRayTraceOff,
    CastsShadowsOntoInvisibleSurfaces,
}

impl IlluminationModel {
    /// The model that a material file means by `value`: the numerals `0` to
    /// `10` name the models in order, anything else names none.
    pub open spec fn named(value: Seq<char>) -> Option<IlluminationModel> {
        if value == seq!['0'] {
            Some(IlluminationModel::ColorOnAmbientOff)
        } else if value == seq!['1'] {
            Some(IlluminationModel::ColorOnAmbientOn)
        } else if value == seq!['2'] {
            Some(IlluminationModel::HighlightOn)
        } else if value == seq!['3'] {
            Some(IlluminationModel::ReflectionOnAndRayTraceOn)
        } else if value == seq!['4'] {
            Some(IlluminationModel::TransparencyGlassOnReflectionRayTraceOn)
        } else if value == seq!['5'] {
            Some(IlluminationModel::ReflectionFresnelOnAndRayTraceOn)
        } else if value == seq!['6'] {
            Some(IlluminationModel::TransparencyRefractionOnReflectionFresnelOffRayTraceOn)
        } else if value == seq!['7'] {
            Some(IlluminationModel::TransparencyRefractionOnReflectionFresnelOnRayTraceOn)
        } else if value == seq!['8'] {
            Some(IlluminationModel::ReflectionOnRayTraceOff)
        } else if value == seq!['9'] {
            Some(IlluminationModel::TransparencyGlassOnReflectionRayTraceOff)
        } else if value == seq!['1', '0'] {
            Some(IlluminationModel::CastsShadowsOntoInvisibleSurfaces)
        } else {
            None
        }
    }

    /// The model that `value` names, if it names one.
    pub fn recognize(value: &str) -> (model: Option<Self>)
        ensures
            model == Self::named(value@),
    {
        let len = value.unicode_len();
        if len == 1 {
            let c = value.get_char(0);
            assert(value@ =~= seq![c]);
            if c == '0' {
                Some(IlluminationModel::ColorOnAmbientOff)
            } else if c == '1' {
                Some(IlluminationModel::ColorOnAmbientOn)
            } else if c == '2' {
                Some(IlluminationModel::HighlightOn)
            } else if c == '3' {
                Some(IlluminationModel::ReflectionOnAndRayTraceOn)
            } else if c == '4' {
                Some(IlluminationModel::TransparencyGlassOnReflectionRayTraceOn)
            } else if c == '5' {
                Some(IlluminationModel::ReflectionFresnelOnAndRayTraceOn)
            } else if c == '6' {
                Some(IlluminationModel::TransparencyRefractionOnReflectionFresnelOffRayTraceOn)
            } else if c == '7' {
                Some(IlluminationModel::TransparencyRefractionOnReflectionFresnelOnRayTraceOn)
            } else if c == '8' {
                Some(IlluminationModel::ReflectionOnRayTraceOff)
            } else if c == '9' {
                Some(IlluminationModel::TransparencyGlassOnReflectionRayTraceOff)
            } else {
                assert(seq![c][0] == c);
                None
            }
        } else if len == 2 {
            let first = value.get_char(0);
            let second = value.get_char(1);
            assert(value@ =~= seq![first, second]);
            if first == '1' && second == '0' {
                Some(IlluminationModel::CastsShadowsOntoInvisibleSurfaces)
            } else {
                assert(seq![first, second][0] == first);
                assert(seq![first, second][1] == second);
                None
            }
        } else {
            None
        }
    }

    /// The model that `value` names.
    pub fn parse(value: &str) -> (model: Self)
        requires
            Self::named(value@) is Some,
        ensures
            Some(model) == Self::named(value@),
    {
        match Self::recognize(value) {
            Some(model) => model,
            None => unreached(),
        }
    }
}

/// The length of the directory part of a path: everything up to and
/// including the last `/`, nothing if the path has none.
pub open spec fn dir_len(file: Seq<char>) -> int
    decreases file.len(),
{
    if file.len() == 0 {
        0
    } else if file.last() == '/' {
        file.len() as int
    } else {
        dir_len(file.drop_last())
    }
}

/// The directory part of a path, with its closing `/`; empty for a path
/// without one.
pub fn find_dir(file: &str) -> (dir: &str)
    ensures
        dir@ == file@.subrange(0, dir_len(file@)),
{
    let len = file.unicode_len();
    let mut end: usize = len;
    assert(file@.subrange(0, len as int) =~= file@);
    while end > 0
        invariant
            end <= len,
            len == file@.len(),
            dir_len(file@) == dir_len(file@.subrange(0, end as int)),
        decreases end,
    {
        if file.get_char(end - 1) == '/' {
            assert(file@.subrange(0, end as int).last() == '/');
            return file.substring_char(0, end);
        }
        assert(file@.subrange(0, end as int).drop_last() =~= file@.subrange(0, end - 1));
        end -= 1;
    }
    assert(file@.subrange(0, 0).len() == 0);
    file.substring_char(0, 0)
}

/// Whether the first three characters of a line can be read as beats: the
/// line has them, and each is a single byte.
pub open spec fn has_beats(line: Seq<char>) -> bool {
    &&& line.len() >= 3
    &&& forall|i: int| 0 <= i < 3 ==> (#[trigger] line[i]) as u32 <= 0x7f
}

/// Reads one line of a beat map: each of the three columns holds a beat
/// where the line has a `#`.
pub fn parse_map_line(s: &str) -> (beats: (bool, bool, bool))
    requires
        has_beats(s@),
    ensures
        beats == (s@[0] == '#', s@[1] == '#', s@[2] == '#'),
{
    (s.get_char(0) == '#', s.get_char(1) == '#', s.get_char(2) == '#')
}

} // verus!
