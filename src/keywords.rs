use vstd::prelude::*;

verus! {

/// The closed set of special forms of the language.
#[derive(Debug, Clone, Copy, PartialEq, Eq, Structural)]
pub enum Keyword {
    Def,
    Lambda,
    Arrow,
    External,
    Id,
    Ignore,
    Nil,
}

/// The canonical symbolic spelling of a special form.
pub open spec fn keyword_symbol(k: Keyword) -> Seq<char> {
    match k {
        Keyword::Def => seq!['δ'],
        Keyword::Lambda => seq!['λ'],
        Keyword::Arrow => seq!['-', '>'],
        Keyword::External => seq!['ε'],
        Keyword::Id => seq!['ι'],
        Keyword::Ignore => seq!['_'],
        Keyword::Nil => seq!['Ω'],
    }
}

impl Keyword {
    /// The canonical symbolic spelling of this form.
    pub fn symbol(&self) -> (r: &'static str)
        ensures
            r@ == keyword_symbol(*self),
    {
        match self {
            Keyword::Def => {
                proof { reveal_strlit("δ"); }
                "δ"
            },
            Keyword::Lambda => {
                proof { reveal_strlit("λ"); }
                "λ"
            },
            Keyword::Arrow => {
                proof { reveal_strlit("->"); }
                "->"
            },
            Keyword::External => {
                proof { reveal_strlit("ε"); }
                "ε"
            },
            Keyword::Id => {
                proof { reveal_strlit("ι"); }
                "ι"
            },
            Keyword::Ignore => {
                proof { reveal_strlit("_"); }
                "_"
            },
            Keyword::Nil => {
                proof { reveal_strlit("Ω"); }
                "Ω"
            },
        }
    }
}

} // verus!
