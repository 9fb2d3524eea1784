//! What templates see: the variables drawn from the configuration, and the
//! `hex_to_rgb` function.
use vstd::prelude::*;
use crate::config::Cookbook;
use crate::dict::Dict;
use crate::factory::hex_value;
use crate::text::chars_of;

verus! {

/// The variables of template rendering, drawn from one configuration and
/// shared by every ingredient of a batch.
pub struct TemplateContext<'a> {
    pub colors: &'a Dict<String>,
    pub fonts: &'a Dict<String>,
    pub icons: &'a Dict<String>,
}

impl<'a> TemplateContext<'a> {
    /// The theme's colors and fonts, unchanged, and the icons of the set
    /// that the theme selects.
    pub fn new(config: &'a Cookbook) -> (r: TemplateContext<'a>)
        ensures
            *r.colors == config.theme.colors,
            *r.fonts == config.theme.fonts,
            *r.icons == (if config.theme.settings.active_icons@ == "nerdfont"@ {
                config.icons.nerdfont
            } else {
                config.icons.ascii
            }),
    {
        TemplateContext {
            colors: &config.theme.colors,
            fonts: &config.theme.fonts,
            icons: config.active_icons(),
        }
    }
}

/// Why a template could not be rendered.
#[derive(Debug, Clone, PartialEq, Eq)]
pub enum RenderError {
    /// `hex_to_rgb` was given this string, which is not a hex color.
    InvalidHex(String),
}

/// `s` without one leading `#`, if it has one.
pub open spec fn strip_hash(s: Seq<char>) -> Seq<char> {
    if s.len() > 0 && s[0] == '#' {
        s.drop_first()
    } else {
        s
    }
}

/// The byte of two hexadecimal digits.
pub open spec fn byte_of(a: char, b: char) -> int {
    16 * hex_value(a)->Some_0 + hex_value(b)->Some_0
}

/// Whether `s` is a hex color: an optional `#` and exactly six hexadecimal
/// digits.
pub open spec fn is_hex_color(s: Seq<char>) -> bool {
    let h = strip_hash(s);
    h.len() == 6 && forall|i: int| 0 <= i < 6 ==> (#[trigger] hex_value(h[i])) is Some
}

fn byte(a: char, b: char) -> (r: Option<u8>)
    ensures
        match r {
            Some(v) => hex_value(a) is Some && hex_value(b) is Some && v as int == byte_of(a, b),
            None => hex_value(a) is None || hex_value(b) is None,
        },
{
    if '0' <= a && a <= '9' || 'a' <= a && a <= 'f' || 'A' <= a && a <= 'F' {
        if '0' <= b && b <= '9' || 'a' <= b && b <= 'f' || 'A' <= b && b <= 'F' {
            let hi: u8 = if a <= '9' {
                (a as u32 - '0' as u32) as u8
            } else if a <= 'F' {
                (a as u32 - 'A' as u32 + 10) as u8
            } else {
                (a as u32 - 'a' as u32 + 10) as u8
            };
            let lo: u8 = if b <= '9' {
                (b as u32 - '0' as u32) as u8
            } else if b <= 'F' {
                (b as u32 - 'A' as u32 + 10) as u8
            } else {
                (b as u32 - 'a' as u32 + 10) as u8
            };
            return Some(16 * hi + lo);
        }
    }
    None
}

/// The red, green and blue bytes of a hex color such as `#ff8800`.
pub fn hex_to_rgb(value: &str) -> (r: Result<[u8; 3], RenderError>)
    ensures
        r is Ok <==> is_hex_color(value@),
        r matches Ok(rgb) ==> ({
            let h = strip_hash(value@);
            &&& rgb[0] as int == byte_of(h[0], h[1])
            &&& rgb[1] as int == byte_of(h[2], h[3])
            &&& rgb[2] as int == byte_of(h[4], h[5])
        }),
        r matches Err(e) ==> e is InvalidHex && e->InvalidHex_0@ == value@,
{
    let cs = chars_of(value);
    let start: usize = if cs.len() > 0 && cs[0] == '#' {
        1
    } else {
        0
    };
    let ghost h = strip_hash(value@);
    proof {
        if start == 1 {
            assert(h =~= cs@.skip(1));
        } else {
            assert(h =~= cs@);
        }
    }
    if cs.len() - start != 6 {
        return Err(RenderError::InvalidHex(value.to_owned()));
    }
    proof {
        assert(forall|i: int| 0 <= i < 6 ==> h[i] == cs@[start + i]);
    }
    let r = byte(cs[start], cs[start + 1]);
    let g = byte(cs[start + 2], cs[start + 3]);
    let b = byte(cs[start + 4], cs[start + 5]);
    match (r, g, b) {
        (Some(r), Some(g), Some(b)) => {
            proof {
                assert forall|i: int| 0 <= i < 6 implies (#[trigger] hex_value(h[i])) is Some by {
                    assert(h[i] == cs@[start + i]);
                }
            }
            Ok([r, g, b])
        },
        _ => {
            proof {
                assert(hex_value(h[0]) is None || hex_value(h[1]) is None || hex_value(h[2]) is None
                    || hex_value(h[3]) is None || hex_value(h[4]) is None || hex_value(h[5]) is None);
            }
            Err(RenderError::InvalidHex(value.to_owned()))
        },
    }
}

} // verus!
