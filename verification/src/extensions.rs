//! Extension transforms: declarative colorimetric post-processing attached
//! to a token, applied after its expression resolves.
use vstd::prelude::*;

verus! {

/// The transform action an extension asks for.
#[derive(Debug, Clone, Copy, PartialEq, Eq, Structural)]
pub enum StudioTokensModify {
    Lighten,
    Darken,
    Alpha,
    Other,
}

/// The color space an extension works in.
#[derive(Debug, Clone, Copy, PartialEq, Eq, Structural)]
pub enum StudioTokensSpace {
    Hsl,
    Lch,
    Other,
}

/// The extension payload: a modification with an action, a factor given as
/// raw text, and a color space.
#[derive(Debug, PartialEq, Eq)]
pub enum StudioTokensExtension {
    Modify { type_: StudioTokensModify, value: String, space: StudioTokensSpace },
}

/// A token's extension block; only the studio-tokens kind is known.
#[derive(Debug, PartialEq, Eq)]
pub enum Extensions {
    StudioTokens(StudioTokensExtension),
}

/// The mathematical image of a [`StudioTokensExtension`].
pub enum SpecStudioExtension {
    Modify { type_: StudioTokensModify, value: Seq<char>, space: StudioTokensSpace },
}

/// The mathematical image of an [`Extensions`] block.
pub enum SpecExtensions {
    StudioTokens(SpecStudioExtension),
}

impl View for StudioTokensExtension {
    type V = SpecStudioExtension;

    open spec fn view(&self) -> SpecStudioExtension {
        match self {
            StudioTokensExtension::Modify { type_, value, space } => SpecStudioExtension::Modify {
                type_: *type_,
                value: value@,
                space: *space,
            },
        }
    }
}

impl View for Extensions {
    type V = SpecExtensions;

    open spec fn view(&self) -> SpecExtensions {
        match self {
            Extensions::StudioTokens(e) => SpecExtensions::StudioTokens(e@),
        }
    }
}


/// The transform factor a raw amount text denotes: the full text must be
/// one plain decimal number — an optional minus sign, digits, and an
/// optional point with further digits. Exponent forms and a leading plus
/// sign are not part of the expression grammar and are a parse fault.
pub open spec fn spec_amount(value: Seq<char>) -> Option<crate::decimal::Decimal> {
    match crate::parser::num_lex(value, 0) {
        Some((end, d)) => if end == value.len() {
            Some(d)
        } else {
            None
        },
        None => None,
    }
}

/// What an extension does to a resolved base value: the amount text must
/// parse, the base must be a color, and the action/space pair must be one
/// of lighten or darken over hue/saturation/lightness or an alpha shift
/// over lightness/chroma/hue; a factor beyond the engine's fixed-point
/// range is an overflow fault.
pub open spec fn spec_extension_result(
    ext: SpecStudioExtension,
    base: crate::value::SpecValue,
) -> Result<crate::color::ColorValue, crate::errors::SpecError> {
    match ext {
        SpecStudioExtension::Modify { type_, value, space } => match spec_amount(value) {
            None => Err(crate::errors::SpecError::Parse(value)),
            Some(d) => match base {
                crate::value::SpecValue::Color(c) => {
                    let f = crate::transform::spec_factor_fx(d);
                    match (space, type_) {
                        (StudioTokensSpace::Hsl, StudioTokensModify::Lighten) => if f
                            > crate::transform::FX_FACTOR_MAX {
                            Err(crate::errors::SpecError::Overflow)
                        } else {
                            Ok(crate::transform::spec_hsl_modify(c, false, d.neg, f))
                        },
                        (StudioTokensSpace::Hsl, StudioTokensModify::Darken) => if f
                            > crate::transform::FX_FACTOR_MAX {
                            Err(crate::errors::SpecError::Overflow)
                        } else {
                            Ok(crate::transform::spec_hsl_modify(c, true, d.neg, f))
                        },
                        (StudioTokensSpace::Lch, StudioTokensModify::Alpha) => if f
                            > crate::transform::FX_FACTOR_MAX {
                            Err(crate::errors::SpecError::Overflow)
                        } else {
                            Ok(crate::transform::spec_alpha_modify(c, d.neg, f))
                        },
                        _ => Err(crate::errors::SpecError::TypeMismatch),
                    }
                },
                _ => Err(crate::errors::SpecError::TypeMismatch),
            },
        },
    }
}

impl StudioTokensExtension {
    /// Applies this extension to a resolved base value.
    fn apply(&self, base: &crate::value::Value) -> (r: Result<
        crate::color::ColorValue,
        crate::errors::Error,
    >)
        ensures
            match r {
                Ok(c) => spec_extension_result(self@, base@) == Ok::<
                    crate::color::ColorValue,
                    crate::errors::SpecError,
                >(c),
                Err(e) => spec_extension_result(self@, base@) == Err::<
                    crate::color::ColorValue,
                    crate::errors::SpecError,
                >(e@),
            },
    {
        match self {
            StudioTokensExtension::Modify { type_, value, space } => {
                let chars = crate::strutil::str_to_chars(value.as_str());
                let amount = match crate::parser::lex_number(&chars, 0) {
                    Some((end, d)) => {
                        if end == chars.len() {
                            d
                        } else {
                            return Err(crate::errors::Error::Parse(value.clone()));
                        }
                    },
                    None => {
                        return Err(crate::errors::Error::Parse(value.clone()));
                    },
                };
                match base {
                    crate::value::Value::Color(c) => {
                        match (*space, *type_) {
                            (StudioTokensSpace::Hsl, StudioTokensModify::Lighten) => {
                                match crate::transform::factor_fx(&amount) {
                                    None => Err(crate::errors::Error::Overflow),
                                    Some((neg, f)) => Ok(
                                        crate::transform::hsl_modify(c, false, neg, f),
                                    ),
                                }
                            },
                            (StudioTokensSpace::Hsl, StudioTokensModify::Darken) => {
                                match crate::transform::factor_fx(&amount) {
                                    None => Err(crate::errors::Error::Overflow),
                                    Some((neg, f)) => Ok(
                                        crate::transform::hsl_modify(c, true, neg, f),
                                    ),
                                }
                            },
                            (StudioTokensSpace::Lch, StudioTokensModify::Alpha) => {
                                match crate::transform::factor_fx(&amount) {
                                    None => Err(crate::errors::Error::Overflow),
                                    Some((neg, f)) => Ok(
                                        crate::transform::alpha_modify(c, neg, f),
                                    ),
                                }
                            },
                            _ => Err(crate::errors::Error::TypeMismatch),
                        }
                    },
                    _ => Err(crate::errors::Error::TypeMismatch),
                }
            },
        }
    }

    /// The stylesheet text of the transformed value: the hex form of the
    /// color the transform produces.
    pub fn to_css(&self, base_value: &crate::value::Value) -> (r: Result<
        String,
        crate::errors::Error,
    >)
        ensures
            match r {
                Ok(s) => spec_extension_result(self@, base_value@) matches Ok(c) && s@
                    == crate::color::color_hex_chars(c),
                Err(e) => spec_extension_result(self@, base_value@) == Err::<
                    crate::color::ColorValue,
                    crate::errors::SpecError,
                >(e@),
            },
    {
        match self.apply(base_value) {
            Ok(c) => {
                let hex = c.to_hex_chars();
                Ok(crate::strutil::chars_to_string(&hex))
            },
            Err(e) => Err(e),
        }
    }

    /// The transformed value itself: the color the transform produces.
    pub fn to_rust(&self, base_value: &crate::value::Value) -> (r: Result<
        crate::value::Value,
        crate::errors::Error,
    >)
        ensures
            match r {
                Ok(v) => spec_extension_result(self@, base_value@) matches Ok(c) && v@
                    == crate::value::SpecValue::Color(c),
                Err(e) => spec_extension_result(self@, base_value@) == Err::<
                    crate::color::ColorValue,
                    crate::errors::SpecError,
                >(e@),
            },
    {
        match self.apply(base_value) {
            Ok(c) => Ok(crate::value::Value::Color(c)),
            Err(e) => Err(e),
        }
    }
}

} // verus!
