//! Styling of the rendered characters.
use vstd::prelude::*;

verus! {

/// The style class of a rendered character: one per nucleotide in the core,
/// one for soft-masked flank characters, and a plain one for the rest.
pub open spec fn style_class(c: char) -> Seq<char> {
    if c == 'A' {
        "aligned-char adenosine"@
    } else if c == 'C' {
        "aligned-char cytosine"@
    } else if c == 'G' {
        "aligned-char guanine"@
    } else if c == 'T' {
        "aligned-char thymine"@
    } else if c == 'a' || c == 'c' || c == 'g' || c == 't' {
        "aligned-char softmask"@
    } else {
        "aligned-char"@
    }
}

/// Returns the style class of a rendered character.
pub fn get_id<'a>(c: char) -> (r: &'a str)
    ensures
        r@ == style_class(c),
{
    match c {
        'A' => "aligned-char adenosine",
        'C' => "aligned-char cytosine",
        'G' => "aligned-char guanine",
        'T' => "aligned-char thymine",
        'a' | 'c' | 'g' | 't' => "aligned-char softmask",
        _ => "aligned-char",
    }
}

} // verus!
