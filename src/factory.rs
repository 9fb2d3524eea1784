//! Notification tags and colors.
use vstd::prelude::*;
use crate::config::{Cookbook, TagConfig};
use crate::text::{chars_of, string_of, upper_of, lower_of, char_upper_of, uppercase, lowercase, char_uppercase};

verus! {

broadcast use vstd::std_specs::vec::group_vec_axioms;

/// `n` spaces.
pub open spec fn spaces(n: nat) -> Seq<char> {
    Seq::new(n, |i: int| ' ')
}

/// `s` centred in `width` columns, the odd space going right; unchanged when
/// it is already as wide.
pub open spec fn centred(s: Seq<char>, width: int) -> Seq<char> {
    if s.len() >= width {
        s
    } else {
        let total = width - s.len();
        let left = total / 2;
        spaces(left as nat) + s + spaces((total - left) as nat)
    }
}

/// A label after the tag's case transform.
pub open spec fn transformed(mode: Seq<char>, label: Seq<char>) -> Seq<char> {
    if mode == "uppercase"@ {
        upper_of(label)
    } else if mode == "lowercase"@ {
        lower_of(label)
    } else if mode == "capitalize"@ {
        if label.len() == 0 {
            label
        } else {
            char_upper_of(label[0]) + label.drop_first()
        }
    } else {
        label
    }
}

/// The tag around an already transformed label.
pub open spec fn framed(tag: TagConfig, label: Seq<char>) -> Seq<char> {
    tag.prefix@ + centred(label, tag.min_width as int) + tag.suffix@
}

/// Builds notification tags from the layout.
pub struct TagFactory;

impl TagFactory {
    /// The tag of an already transformed label: centred in the minimum
    /// width, between prefix and suffix.
    pub fn frame(tag: &TagConfig, label: &str) -> (r: String)
        ensures
            r@ == framed(*tag, label@),
    {
        let l = chars_of(label);
        let mut out = chars_of(tag.prefix.as_str());
        let ghost p = out@;
        let width = tag.min_width;
        let n = l.len();
        let (left, right) = if n >= width {
            (0usize, 0usize)
        } else {
            let total = width - n;
            (total / 2, total - total / 2)
        };
        let mut i: usize = 0;
        while i < left
            invariant
                i <= left,
                out@ == p + spaces(i as nat),
            decreases left - i,
        {
            out.push(' ');
            proof {
                assert(out@ =~= p + spaces((i + 1) as nat));
            }
            i += 1;
        }
        let mut j: usize = 0;
        while j < n
            invariant
                j <= n,
                n == l@.len(),
                out@ == p + spaces(left as nat) + l@.take(j as int),
            decreases n - j,
        {
            out.push(l[j]);
            proof {
                assert(out@ =~= p + spaces(left as nat) + l@.take(j + 1));
            }
            j += 1;
        }
        let ghost q = out@;
        let mut k: usize = 0;
        while k < right
            invariant
                k <= right,
                out@ == q + spaces(k as nat),
            decreases right - k,
        {
            out.push(' ');
            proof {
                assert(out@ =~= q + spaces((k + 1) as nat));
            }
            k += 1;
        }
        let s = chars_of(tag.suffix.as_str());
        let mut m: usize = 0;
        let ghost w = out@;
        while m < s.len()
            invariant
                m <= s@.len(),
                out@ == w + s@.take(m as int),
            decreases s.len() - m,
        {
            out.push(s[m]);
            proof {
                assert(out@ =~= w + s@.take(m + 1));
            }
            m += 1;
        }
        proof {
            assert(l@.take(n as int) =~= l@);
            assert(s@.take(s@.len() as int) =~= s@);
            if n >= width {
                assert(out@ =~= framed(*tag, label@));
            } else {
                assert(out@ =~= framed(*tag, label@));
            }
        }
        string_of(&out)
    }

    /// The tag of a notification level: the level's label (the layout's
    /// override, else the level itself), case-transformed, centred and
    /// bracketed.
    pub fn create_tag(config: &Cookbook, level: &str) -> (r: String)
        ensures
            r@ == framed(
                config.layout.tag,
                transformed(
                    config.layout.tag.transform@,
                    if config.layout.labels@.contains_key(level@) {
                        config.layout.labels@[level@]@
                    } else {
                        level@
                    },
                ),
            ),
    {
        let label: &str = match config.layout.labels.get(level) {
            Some(s) => s.as_str(),
            None => level,
        };
        let mode = config.layout.tag.transform.as_str();
        let t: String = if mode.to_owned() == "uppercase".to_owned() {
            uppercase(label)
        } else if mode.to_owned() == "lowercase".to_owned() {
            lowercase(label)
        } else if mode.to_owned() == "capitalize".to_owned() {
            let cs = chars_of(label);
            if cs.len() == 0 {
                String::new()
            } else {
                let mut out = char_uppercase(cs[0]);
                let ghost head = out@;
                let mut i: usize = 1;
                while i < cs.len()
                    invariant
                        1 <= i <= cs@.len(),
                        out@ == head + cs@.subrange(1, i as int),
                    decreases cs.len() - i,
                {
                    out.push(cs[i]);
                    proof {
                        assert(out@ =~= head + cs@.subrange(1, i + 1));
                    }
                    i += 1;
                }
                proof {
                    assert(cs@.subrange(1, cs@.len() as int) =~= cs@.drop_first());
                }
                string_of(&out)
            }
        } else {
            label.to_owned()
        };
        TagFactory::frame(&config.layout.tag, t.as_str())
    }
}

/// The value of a hexadecimal digit.
pub open spec fn hex_value(c: char) -> Option<int> {
    if '0' <= c && c <= '9' {
        Some(c as int - '0' as int)
    } else if 'a' <= c && c <= 'f' {
        Some(c as int - 'a' as int + 10)
    } else if 'A' <= c && c <= 'F' {
        Some(c as int - 'A' as int + 10)
    } else {
        None
    }
}

fn hex_digit(c: char) -> (r: Option<u8>)
    ensures
        match r {
            Some(v) => hex_value(c) == Some(v as int),
            None => hex_value(c) is None,
        },
{
    if '0' <= c && c <= '9' {
        Some((c as u32 - '0' as u32) as u8)
    } else if 'a' <= c && c <= 'f' {
        Some((c as u32 - 'a' as u32 + 10) as u8)
    } else if 'A' <= c && c <= 'F' {
        Some((c as u32 - 'A' as u32 + 10) as u8)
    } else {
        None
    }
}

/// `s` without its leading `#` characters.
pub open spec fn trim_hashes(s: Seq<char>) -> Seq<char>
    decreases s.len(),
{
    if s.len() > 0 && s[0] == '#' {
        trim_hashes(s.drop_first())
    } else {
        s
    }
}

/// The byte that two characters give when read as an unsigned hexadecimal
/// number with an optional `+` sign.
pub open spec fn radix_pair(a: char, b: char) -> Option<int> {
    if a == '+' {
        hex_value(b)
    } else if hex_value(a) is Some && hex_value(b) is Some {
        Some(16 * hex_value(a)->Some_0 + hex_value(b)->Some_0)
    } else {
        None
    }
}

/// A color component: the pair's byte, or 255 when it is not one.
pub open spec fn component(a: char, b: char) -> int {
    match radix_pair(a, b) {
        Some(v) => v,
        None => 255,
    }
}

/// A color given by its red, green and blue components.
#[derive(Debug, Clone, Copy, PartialEq, Eq)]
pub struct Rgb {
    pub r: u8,
    pub g: u8,
    pub b: u8,
}

/// Turns hexadecimal color strings into colors.
pub struct ColorResolver;

fn pair(a: char, b: char) -> (r: u8)
    ensures
        r as int == component(a, b),
{
    if a == '+' {
        match hex_digit(b) {
            Some(v) => v,
            None => 255,
        }
    } else {
        match (hex_digit(a), hex_digit(b)) {
            (Some(x), Some(y)) => 16 * x + y,
            _ => 255,
        }
    }
}

impl ColorResolver {
    /// The color of `hex`: its leading `#`s dropped, six ASCII characters
    /// read as three two-digit components, each 255 where its pair does not
    /// read; any other length gives white.
    pub fn hex_to_color(hex: &str) -> (c: Rgb)
        ensures
            ({
                let h = trim_hashes(hex@);
                if h.len() == 6 && (forall|i: int| 0 <= i < 6 ==> (h[i] as u32) < 128) {
                    c.r as int == component(h[0], h[1]) && c.g as int == component(h[2], h[3])
                        && c.b as int == component(h[4], h[5])
                } else {
                    c == (Rgb { r: 255, g: 255, b: 255 })
                }
            }),
    {
        let cs = chars_of(hex);
        let mut start: usize = 0;
        proof {
            assert(cs@.skip(0) =~= cs@);
        }
        while start < cs.len() && cs[start] == '#'
            invariant
                start <= cs@.len(),
                trim_hashes(hex@) == trim_hashes(cs@.skip(start as int)),
                cs@ == hex@,
            decreases cs.len() - start,
        {
            proof {
                assert(cs@.skip(start as int).drop_first() =~= cs@.skip(start + 1));
            }
            start += 1;
        }
        let ghost h = cs@.skip(start as int);
        if cs.len() - start == 6 && (cs[start] as u32) < 128 && (cs[start + 1] as u32) < 128 && (cs[start + 2] as u32) < 128 && (cs[start + 3] as u32) < 128 && (cs[start + 4] as u32) < 128
            && (cs[start + 5] as u32) < 128 {
            Rgb {
                r: pair(cs[start], cs[start + 1]),
                g: pair(cs[start + 2], cs[start + 3]),
                b: pair(cs[start + 4], cs[start + 5]),
            }
        } else {
            proof {
                if h.len() == 6 {
                    assert(h[0] == cs[start as int] && h[1] == cs[start + 1] && h[2] == cs[start + 2]
                        && h[3] == cs[start + 3] && h[4] == cs[start + 4] && h[5] == cs[start + 5]);
                }
            }
            Rgb { r: 255, g: 255, b: 255 }
        }
    }
}

} // verus!
