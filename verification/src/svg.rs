//! Reading the declared width out of rendered image bytes.
//!
//! The parse itself is `svg_metadata`'s; this module maps its result to the
//! closed set of units the embed directive supports and formats the width
//! clause.  A unit outside that set (or missing/unreadable width metadata on
//! a successful render) is an internal-consistency fault, not a render
//! failure: the renderer is expected to emit only supported units, so such a
//! value must not be silently swallowed.

use vstd::prelude::*;

verus! {

/// A width unit as it may be declared in an SVG's metadata.  `Other` stands
/// for any unit the metadata parser may grow beyond the named ones.
#[derive(Clone, Copy, PartialEq, Eq, Structural, Debug)]
pub enum WidthUnit {
    Em,
    Ex,
    Px,
    Pt,
    Pc,
    Cm,
    Mm,
    In,
    Percent,
    Other,
}

/// The units an embed directive's width clause may carry.
pub open spec fn unit_supported(u: WidthUnit) -> bool {
    match u {
        WidthUnit::Em => true,
        WidthUnit::Pt => true,
        WidthUnit::Cm => true,
        WidthUnit::Mm => true,
        WidthUnit::In => true,
        WidthUnit::Percent => true,
        _ => false,
    }
}

/// The canonical symbol a supported unit formats as.
pub open spec fn unit_suffix(u: WidthUnit) -> Seq<char> {
    match u {
        WidthUnit::Em => seq!['e', 'm'],
        WidthUnit::Pt => seq!['p', 't'],
        WidthUnit::Cm => seq!['c', 'm'],
        WidthUnit::Mm => seq!['m', 'm'],
        WidthUnit::In => seq!['i', 'n'],
        WidthUnit::Percent => seq!['%'],
        _ => Seq::empty(),
    }
}

pub fn unit_suffix_str(u: WidthUnit) -> (r: &'static str)
    requires
        unit_supported(u),
    ensures
        r@ == unit_suffix(u),
{
    proof {
        reveal_strlit("em");
        reveal_strlit("pt");
        reveal_strlit("cm");
        reveal_strlit("mm");
        reveal_strlit("in");
        reveal_strlit("%");
        assert("em"@ =~= unit_suffix(WidthUnit::Em));
        assert("pt"@ =~= unit_suffix(WidthUnit::Pt));
        assert("cm"@ =~= unit_suffix(WidthUnit::Cm));
        assert("mm"@ =~= unit_suffix(WidthUnit::Mm));
        assert("in"@ =~= unit_suffix(WidthUnit::In));
        assert("%"@ =~= unit_suffix(WidthUnit::Percent));
    }
    match u {
        WidthUnit::Em => "em",
        WidthUnit::Pt => "pt",
        WidthUnit::Cm => "cm",
        WidthUnit::Mm => "mm",
        WidthUnit::In => "in",
        _ => "%",
    }
}

/// What the metadata parser reads as the declared width of the given SVG
/// bytes: the magnitude as it formats it, and the unit.  `None` when the
/// bytes are not UTF-8, not parseable SVG, or declare no width.  The result
/// is a function of the bytes alone.
pub uninterp spec fn svg_width_of(bytes: Seq<u8>) -> Option<(Seq<char>, WidthUnit)>;

/// Relies on `svg_metadata::Metadata::parse`: reads the root element's
/// `width` attribute of an SVG document.  What it returns depends on the
/// input bytes alone.
#[verifier::external_body]
fn read_svg_width(bytes: &Vec<u8>) -> (r: Option<(String, WidthUnit)>)
    ensures
        match (r, svg_width_of(bytes@)) {
            (Some(w), Some(ws)) => w.0@ == ws.0 && w.1 == ws.1,
            (None, None) => true,
            _ => false,
        },
{
    let text = match core::str::from_utf8(bytes) { Ok(t) => t, Err(_) => return None };
    let meta = match svg_metadata::Metadata::parse(text) { Ok(m) => m, Err(_) => return None };
    let width = match meta.width { Some(w) => w, None => return None };
    let unit = match width.unit {
        svg_metadata::Unit::Em => WidthUnit::Em, svg_metadata::Unit::Ex => WidthUnit::Ex,
        svg_metadata::Unit::Px => WidthUnit::Px, svg_metadata::Unit::Pt => WidthUnit::Pt,
        svg_metadata::Unit::Pc => WidthUnit::Pc, svg_metadata::Unit::Cm => WidthUnit::Cm,
        svg_metadata::Unit::Mm => WidthUnit::Mm, svg_metadata::Unit::In => WidthUnit::In,
        svg_metadata::Unit::Percent => WidthUnit::Percent, _ => WidthUnit::Other,
    };
    Some((format!("{}", width.width), unit))
}

/// An internal-consistency fault while reading a rendered image's width.
#[derive(Clone, Copy, PartialEq, Eq, Structural, Debug)]
pub enum MetadataFault {
    /// The bytes carry no readable declared width.
    NoWidth,
    /// The declared width's unit is outside the supported set.
    UnsupportedUnit,
}

/// The width clause of an embed directive for the given image bytes:
/// magnitude followed by the unit's canonical symbol.  `None` exactly when
/// the bytes are an internal-consistency fault.
pub open spec fn width_clause_of(bytes: Seq<u8>) -> Option<Seq<char>> {
    match svg_width_of(bytes) {
        Some(w) => if unit_supported(w.1) {
            Some(w.0 + unit_suffix(w.1))
        } else {
            None
        },
        None => None,
    }
}

/// Does the cache entry carry exactly the internal-consistency fault `f`:
/// a successful render whose bytes yield no width clause for that reason.
pub open spec fn entry_fault(e: Result<Seq<u8>, Seq<char>>, f: MetadataFault) -> bool {
    match e {
        Ok(bytes) => match f {
            MetadataFault::NoWidth => svg_width_of(bytes) is None,
            MetadataFault::UnsupportedUnit => svg_width_of(bytes) is Some && !unit_supported(
                svg_width_of(bytes)->Some_0.1,
            ),
        },
        Err(_) => false,
    }
}

/// Format the width clause for successfully rendered image bytes, or report
/// which internal-consistency fault they carry.
pub fn width_clause(bytes: &Vec<u8>) -> (r: Result<String, MetadataFault>)
    ensures
        match r {
            Ok(s) => width_clause_of(bytes@) == Some(s@),
            Err(MetadataFault::NoWidth) => svg_width_of(bytes@) is None,
            Err(MetadataFault::UnsupportedUnit) => svg_width_of(bytes@) is Some
                && !unit_supported(svg_width_of(bytes@)->Some_0.1),
        },
        r is Err <==> width_clause_of(bytes@) is None,
{
    match read_svg_width(bytes) {
        None => Err(MetadataFault::NoWidth),
        Some((magnitude, unit)) => {
            if unit_suffix_supported(unit) {
                let mut s = magnitude;
                s.append(unit_suffix_str(unit));
                Ok(s)
            } else {
                Err(MetadataFault::UnsupportedUnit)
            }
        },
    }
}

/// Decide membership in the supported unit set.
fn unit_suffix_supported(u: WidthUnit) -> (r: bool)
    ensures
        r == unit_supported(u),
{
    match u {
        WidthUnit::Em => true,
        WidthUnit::Pt => true,
        WidthUnit::Cm => true,
        WidthUnit::Mm => true,
        WidthUnit::In => true,
        WidthUnit::Percent => true,
        _ => false,
    }
}

} // verus!
