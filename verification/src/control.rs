//! Front-end control plumbing: keyboard layouts, key colour schemas and
//! the mapping from control-change numbers to live parameters.

use crate::text::ascii_bytes;
use vstd::prelude::*;
use vstd::string::{StringSliceAdditionalSpecFns, StrSliceExecFns};
use vstd::string::StringExecFns;

verus! {

/// The physical layout of the computer keyboard.
#[derive(Clone, Copy, Debug, PartialEq, Eq, Structural)]
pub enum KeyboardLayout {
    /// Large backspace key, horizontal enter key, large left shift key.
    Ansi,
    /// Subdivided backspace key, large enter key, large left shift key.
    Variant,
    /// Large backspace key, vertical enter key, subdivided left shift key.
    Iso,
}

impl core::str::FromStr for KeyboardLayout {
    type Err = String;

    fn from_str(s: &str) -> Result<Self, Self::Err> {
        if str_eq(s, "ansi") {
            Ok(Self::Ansi)
        } else if str_eq(s, "var") {
            Ok(Self::Variant)
        } else if str_eq(s, "iso") {
            Ok(Self::Iso)
        } else {
            Err("Invalid keyboard layout. Should be `ansi`, `var` or `iso`.".to_owned())
        }
    }
}

/// Byte-wise string comparison.
fn str_eq(a: &str, b: &str) -> (r: bool)
    ensures
        r == (a.spec_bytes() == b.spec_bytes()),
{
    let va = a.as_bytes_vec();
    let vb = b.as_bytes_vec();
    if va.len() != vb.len() {
        proof {
            assert(a.spec_bytes() != b.spec_bytes());
        }
        return false;
    }
    let mut i: usize = 0;
    while i < va.len()
        invariant
            i <= va@.len() == vb@.len(),
            va@ == a.spec_bytes(),
            vb@ == b.spec_bytes(),
            forall|j: int| 0 <= j < i ==> va@[j] == vb@[j],
        decreases va@.len() - i,
    {
        if va[i] != vb[i] {
            proof {
                assert(a.spec_bytes()[i as int] != b.spec_bytes()[i as int]);
            }
            return false;
        }
        i = i + 1;
    }
    proof {
        assert(va@ =~= vb@);
    }
    true
}

/// The colour of one key of the scale-specific keyboard.
#[derive(Clone, Copy, Debug, PartialEq, Eq, Structural)]
pub enum KeyColor {
    White,
    Red,
    Green,
    Blue,
    Cyan,
    Magenta,
    Yellow,
    Black,
}

/// A repeating colour schema for the scale-specific keyboard.
#[derive(Clone, Debug)]
pub struct KeyColors(pub Vec<KeyColor>);

/// The colour denoted by one schema byte, if any.
pub open spec fn spec_key_color(b: u8) -> Option<KeyColor> {
    if b == 119 {
        Some(KeyColor::White)
    } else if b == 114 {
        Some(KeyColor::Red)
    } else if b == 103 {
        Some(KeyColor::Green)
    } else if b == 98 {
        Some(KeyColor::Blue)
    } else if b == 99 {
        Some(KeyColor::Cyan)
    } else if b == 109 {
        Some(KeyColor::Magenta)
    } else if b == 121 {
        Some(KeyColor::Yellow)
    } else if b == 107 {
        Some(KeyColor::Black)
    } else {
        None
    }
}

/// Parses a colour schema such as `"wbwwbwbwbwwb"`: one colour per
/// character, drawn from `wrgbcmyk`; the schema must not be empty.
pub fn parse_key_colors(src: &str) -> (r: Result<KeyColors, String>)
    ensures
        ({
            let t = ascii_bytes(src@);
            match r {
                Ok(kc) => {
                    &&& vstd::string::is_ascii(src)
                    &&& t.len() >= 1
                    &&& kc.0@.len() == t.len()
                    &&& (forall|i: int|
                        0 <= i < t.len() ==> Some(#[trigger] kc.0@[i]) == spec_key_color(
                            t[i],
                        ))
                },
                Err(e) => {
                    if !vstd::string::is_ascii(src) {
                        e@ == "Color schema must be ASCII"@
                    } else if t.len() == 0 {
                        e@ == "Color schema must not be empty"@
                    } else {
                        exists|i: int|
                            0 <= i < t.len() && spec_key_color(#[trigger] t[i]) is None && e@
                                == "Received an invalid character '"@ + src@.subrange(i, i + 1)
                                + "'. Only wrgbcmyk are allowed."@
                    }
                },
            }
        }),
{
    if !src.is_ascii() {
        return Err("Color schema must be ASCII".to_owned());
    }
    let v = src.as_bytes_vec();
    proof {
        vstd::string::is_ascii_spec_bytes(src);
        assert(v@ =~= ascii_bytes(src@));
    }
    if v.len() == 0 {
        return Err("Color schema must not be empty".to_owned());
    }
    let mut colors: Vec<KeyColor> = Vec::new();
    let mut i: usize = 0;
    while i < v.len()
        invariant
            i <= v@.len(),
            vstd::string::is_ascii(src),
            v@ == ascii_bytes(src@),
            colors@.len() == i,
            forall|j: int|
                0 <= j < i ==> Some(#[trigger] colors@[j]) == spec_key_color(v@[j]),
        decreases v@.len() - i,
    {
        let c = match v[i] {
            119 => KeyColor::White,
            114 => KeyColor::Red,
            103 => KeyColor::Green,
            98 => KeyColor::Blue,
            99 => KeyColor::Cyan,
            109 => KeyColor::Magenta,
            121 => KeyColor::Yellow,
            107 => KeyColor::Black,
            _ => {
                let mut msg = String::new();
                msg.append("Received an invalid character '");
                msg.append(src.substring_ascii(i, i + 1));
                msg.append("'. Only wrgbcmyk are allowed.");
                proof {
                    assert(spec_key_color(ascii_bytes(src@)[i as int]) is None);
                    assert(msg@ =~= "Received an invalid character '"@ + src@.subrange(
                        i as int,
                        i + 1,
                    ) + "'. Only wrgbcmyk are allowed."@);
                }
                return Err(msg);
            },
        };
        colors.push(c);
        i = i + 1;
    }
    Ok(KeyColors(colors))
}

/// A live-controllable parameter of the synthesizer front end.
#[derive(Clone, Copy, Debug, PartialEq, Eq, Structural)]
pub enum LiveParameter {
    Modulation,
    Breath,
    Foot,
    Volume,
    Balance,
    Pan,
    Expression,
    Damper,
    Sostenuto,
    Soft,
    Legato,
    Sound1,
    Sound2,
    Sound3,
    Sound4,
    Sound5,
    Sound6,
    Sound7,
    Sound8,
    Sound9,
    Sound10,
}

/// Maps MIDI control-change numbers to live parameters.
pub struct LiveParameterMapper {
    mappings: Vec<(LiveParameter, u8)>,
}

impl LiveParameterMapper {
    /// The mappings pushed so far, for use in contracts.
    pub closed spec fn spec_mappings(&self) -> Seq<(LiveParameter, u8)> {
        self.mappings@
    }

    /// An empty mapper.
    pub fn new() -> (r: LiveParameterMapper)
        ensures
            r.spec_mappings() == Seq::<(LiveParameter, u8)>::empty(),
    {
        LiveParameterMapper { mappings: Vec::new() }
    }

    /// Adds one mapping from a control-change number to a parameter.
    pub fn push_mapping(&mut self, parameter: LiveParameter, ccn: u8)
        ensures
            final(self).spec_mappings() == old(self).spec_mappings().push((parameter, ccn)),
    {
        self.mappings.push((parameter, ccn));
    }
}

/// The control-change numbers assigned to each live parameter.
pub struct ControlChangeParameters {
    pub modulation_ccn: u8,
    pub breath_ccn: u8,
    pub foot_ccn: u8,
    pub volume_ccn: u8,
    pub balance_ccn: u8,
    pub pan_ccn: u8,
    pub expression_ccn: u8,
    pub damper_ccn: u8,
    pub sostenuto_ccn: u8,
    pub soft_ccn: u8,
    pub legato_ccn: u8,
    pub sound_1_ccn: u8,
    pub sound_2_ccn: u8,
    pub sound_3_ccn: u8,
    pub sound_4_ccn: u8,
    pub sound_5_ccn: u8,
    pub sound_6_ccn: u8,
    pub sound_7_ccn: u8,
    pub sound_8_ccn: u8,
    pub sound_9_ccn: u8,
    pub sound_10_ccn: u8,
}

impl ControlChangeParameters {
    /// Builds the mapper holding exactly one mapping per parameter, in the
    /// fixed parameter order.
    pub fn to_parameter_mapper(&self) -> (r: LiveParameterMapper)
        ensures
            r.spec_mappings() =~= seq![
                (LiveParameter::Modulation, self.modulation_ccn),
                (LiveParameter::Breath, self.breath_ccn),
                (LiveParameter::Foot, self.foot_ccn),
                (LiveParameter::Volume, self.volume_ccn),
                (LiveParameter::Balance, self.balance_ccn),
                (LiveParameter::Pan, self.pan_ccn),
                (LiveParameter::Expression, self.expression_ccn),
                (LiveParameter::Damper, self.damper_ccn),
                (LiveParameter::Sostenuto, self.sostenuto_ccn),
                (LiveParameter::Soft, self.soft_ccn),
                (LiveParameter::Legato, self.legato_ccn),
                (LiveParameter::Sound1, self.sound_1_ccn),
                (LiveParameter::Sound2, self.sound_2_ccn),
                (LiveParameter::Sound3, self.sound_3_ccn),
                (LiveParameter::Sound4, self.sound_4_ccn),
                (LiveParameter::Sound5, self.sound_5_ccn),
                (LiveParameter::Sound6, self.sound_6_ccn),
                (LiveParameter::Sound7, self.sound_7_ccn),
                (LiveParameter::Sound8, self.sound_8_ccn),
                (LiveParameter::Sound9, self.sound_9_ccn),
                (LiveParameter::Sound10, self.sound_10_ccn),
            ],
    {
        let mut mapper = LiveParameterMapper::new();
        mapper.push_mapping(LiveParameter::Modulation, self.modulation_ccn);
        mapper.push_mapping(LiveParameter::Breath, self.breath_ccn);
        mapper.push_mapping(LiveParameter::Foot, self.foot_ccn);
        mapper.push_mapping(LiveParameter::Volume, self.volume_ccn);
        mapper.push_mapping(LiveParameter::Balance, self.balance_ccn);
        mapper.push_mapping(LiveParameter::Pan, self.pan_ccn);
        mapper.push_mapping(LiveParameter::Expression, self.expression_ccn);
        mapper.push_mapping(LiveParameter::Damper, self.damper_ccn);
        mapper.push_mapping(LiveParameter::Sostenuto, self.sostenuto_ccn);
        mapper.push_mapping(LiveParameter::Soft, self.soft_ccn);
        mapper.push_mapping(LiveParameter::Legato, self.legato_ccn);
        mapper.push_mapping(LiveParameter::Sound1, self.sound_1_ccn);
        mapper.push_mapping(LiveParameter::Sound2, self.sound_2_ccn);
        mapper.push_mapping(LiveParameter::Sound3, self.sound_3_ccn);
        mapper.push_mapping(LiveParameter::Sound4, self.sound_4_ccn);
        mapper.push_mapping(LiveParameter::Sound5, self.sound_5_ccn);
        mapper.push_mapping(LiveParameter::Sound6, self.sound_6_ccn);
        mapper.push_mapping(LiveParameter::Sound7, self.sound_7_ccn);
        mapper.push_mapping(LiveParameter::Sound8, self.sound_8_ccn);
        mapper.push_mapping(LiveParameter::Sound9, self.sound_9_ccn);
        mapper.push_mapping(LiveParameter::Sound10, self.sound_10_ccn);
        mapper
    }
}

} // verus!