//! The kinds of value that a tag can have, and the table that gives each
//! registered tag name its kind.

use vstd::prelude::*;
use crate::decimal::Decimal;
use crate::text::{chars_of, same_chars};

verus! {

/// Marks the types that can be the value of a tag.
pub trait ValidIncarValueType {

}

impl ValidIncarValueType for String {

}

impl ValidIncarValueType for bool {

}

impl ValidIncarValueType for i64 {

}

impl ValidIncarValueType for Decimal {

}

impl ValidIncarValueType for Vec<Decimal> {

}

impl ValidIncarValueType for Vec<i64> {

}

/// The kind of value that a tag has.
#[derive(Debug, Clone, Copy, PartialEq, Eq, Structural)]
pub enum IncarTagType {
    Bool,
    Integer,
    IntegerArray,
    Real,
    RealArray,
    String,
}

/// The table of registered tags: each name with its kind. It is made once
/// and handed to whatever reads or checks tags.
#[derive(Debug, Clone)]
pub struct TagSchema {
    entries: Vec<(String, IncarTagType)>,
}

/// The kind that the first entry of name `name` gives.
pub open spec fn lookup_in(entries: Seq<(Seq<char>, IncarTagType)>, name: Seq<char>) -> Option<
    IncarTagType,
>
    decreases entries.len(),
{
    if entries.len() == 0 {
        None
    } else if entries[0].0 == name {
        Some(entries[0].1)
    } else {
        lookup_in(entries.drop_first(), name)
    }
}

impl View for TagSchema {
    type V = Seq<(Seq<char>, IncarTagType)>;

    closed spec fn view(&self) -> Seq<(Seq<char>, IncarTagType)> {
        Seq::new(self.entries.len() as nat, |i: int| (self.entries[i].0@, self.entries[i].1))
    }
}

impl TagSchema {
    /// The kind of the tag `name`, if it is registered.
    pub open spec fn kind_of(self, name: Seq<char>) -> Option<IncarTagType> {
        lookup_in(self@, name)
    }

    /// A table without entries.
    pub fn new() -> (s: TagSchema)
        ensures
            s@ == Seq::<(Seq<char>, IncarTagType)>::empty(),
    {
        let s = TagSchema { entries: Vec::new() };
        assert(s@ =~= Seq::empty());
        s
    }

    /// Registers `name` with `kind`, unless the name is registered already.
    pub fn register(&mut self, name: &str, kind: IncarTagType) -> (added: bool)
        ensures
            added == (old(self).kind_of(name@) is None),
            final(self)@ == if added {
                old(self)@.push((name@, kind))
            } else {
                old(self)@
            },
    {
        if self.lookup(name).is_some() {
            return false;
        }
        let ghost before = self@;
        self.entries.push((name.to_owned(), kind));
        assert(self@ =~= before.push((name@, kind)));
        true
    }

    /// The kind of the tag `name`, if it is registered.
    pub fn lookup(&self, name: &str) -> (r: Option<IncarTagType>)
        ensures
            r == self.kind_of(name@),
    {
        let chars = chars_of(name);
        self.lookup_chars(chars.as_slice())
    }

    /// The kind of the tag whose name has the characters `name`, if it is
    /// registered.
    pub fn lookup_chars(&self, name: &[char]) -> (r: Option<IncarTagType>)
        ensures
            r == self.kind_of(name@),
    {
        let mut i: usize = 0;
        assert(self@.skip(0) =~= self@);
        while i < self.entries.len()
            invariant
                i <= self.entries.len(),
                lookup_in(self@, name@) == lookup_in(self@.skip(i as int), name@),
            decreases self.entries.len() - i,
        {
            let ghost rest = self@.skip(i as int);
            assert(rest[0] == self@[i as int]);
            assert(rest.drop_first() =~= self@.skip(i + 1));
            let entry = chars_of(self.entries[i].0.as_str());
            if same_chars(entry.as_slice(), name) {
                return Some(self.entries[i].1);
            }
            i += 1;
        }
        None
    }
}

/// The number of tags in the standard table.
pub const STANDARD_TAGS: usize = 75;

/// The tag of index `i` of the standard table, with its kind.
pub open spec fn standard_entry(i: usize) -> (Seq<char>, IncarTagType) {
    match i {
        0 => ("ADDGRID"@, IncarTagType::Bool),
        1 => ("AEXX"@, IncarTagType::Real),
        2 => ("AGGAC"@, IncarTagType::Real),
        3 => ("ALGO"@, IncarTagType::String),
        4 => ("AMIN"@, IncarTagType::Real),
        5 => ("AMIX"@, IncarTagType::Real),
        6 => ("AMIX_MAG"@, IncarTagType::Real),
        7 => ("BMIX"@, IncarTagType::Real),
        8 => ("BMIX_MAG"@, IncarTagType::Real),
        9 => ("DIPOL"@, IncarTagType::RealArray),
        10 => ("EDIFF"@, IncarTagType::Real),
        11 => ("EDIFFG"@, IncarTagType::Real),
        12 => ("EMAX"@, IncarTagType::Real),
        13 => ("EMIN"@, IncarTagType::Real),
        14 => ("ENAUG"@, IncarTagType::Real),
        15 => ("ENCUT"@, IncarTagType::Real),
        16 => ("GGA"@, IncarTagType::String),
        17 => ("HFSCREEN"@, IncarTagType::Real),
        18 => ("IBRION"@, IncarTagType::Integer),
        19 => ("ICHARG"@, IncarTagType::Integer),
        20 => ("IDIPOL"@, IncarTagType::Integer),
        21 => ("IMAGES"@, IncarTagType::Integer),
        22 => ("ISIF"@, IncarTagType::Integer),
        23 => ("ISMEAR"@, IncarTagType::Integer),
        24 => ("ISPIN"@, IncarTagType::Integer),
        25 => ("ISTART"@, IncarTagType::Integer),
        26 => ("ISYM"@, IncarTagType::Integer),
        27 => ("IVDW"@, IncarTagType::Integer),
        28 => ("KPAR"@, IncarTagType::Integer),
        29 => ("KSPACING"@, IncarTagType::Real),
        30 => ("LAECHG"@, IncarTagType::Bool),
        31 => ("LASPH"@, IncarTagType::Bool),
        32 => ("LCHARG"@, IncarTagType::Bool),
        33 => ("LDAU"@, IncarTagType::Bool),
        34 => ("LDAUJ"@, IncarTagType::RealArray),
        35 => ("LDAUL"@, IncarTagType::IntegerArray),
        36 => ("LDAUPRINT"@, IncarTagType::Integer),
        37 => ("LDAUTYPE"@, IncarTagType::Integer),
        38 => ("LDAUU"@, IncarTagType::RealArray),
        39 => ("LDIPOL"@, IncarTagType::Bool),
        40 => ("LELF"@, IncarTagType::Bool),
        41 => ("LEPSILON"@, IncarTagType::Bool),
        42 => ("LHFCALC"@, IncarTagType::Bool),
        43 => ("LMAXMIX"@, IncarTagType::Integer),
        44 => ("LNONCOLLINEAR"@, IncarTagType::Bool),
        45 => ("LOPTICS"@, IncarTagType::Bool),
        46 => ("LORBIT"@, IncarTagType::Integer),
        47 => ("LPLANE"@, IncarTagType::Bool),
        48 => ("LREAL"@, IncarTagType::String),
        49 => ("LSORBIT"@, IncarTagType::Bool),
        50 => ("LVHAR"@, IncarTagType::Bool),
        51 => ("LVTOT"@, IncarTagType::Bool),
        52 => ("LWAVE"@, IncarTagType::Bool),
        53 => ("MAGMOM"@, IncarTagType::RealArray),
        54 => ("MDALGO"@, IncarTagType::Integer),
        55 => ("NBANDS"@, IncarTagType::Integer),
        56 => ("NCORE"@, IncarTagType::Integer),
        57 => ("NEDOS"@, IncarTagType::Integer),
        58 => ("NELECT"@, IncarTagType::Real),
        59 => ("NELM"@, IncarTagType::Integer),
        60 => ("NELMIN"@, IncarTagType::Integer),
        61 => ("NFREE"@, IncarTagType::Integer),
        62 => ("NPAR"@, IncarTagType::Integer),
        63 => ("NSIM"@, IncarTagType::Integer),
        64 => ("NSW"@, IncarTagType::Integer),
        65 => ("NUPDOWN"@, IncarTagType::Real),
        66 => ("POTIM"@, IncarTagType::Real),
        67 => ("PREC"@, IncarTagType::String),
        68 => ("SAXIS"@, IncarTagType::RealArray),
        69 => ("SIGMA"@, IncarTagType::Real),
        70 => ("SMASS"@, IncarTagType::Real),
        71 => ("SYMPREC"@, IncarTagType::Real),
        72 => ("SYSTEM"@, IncarTagType::String),
        73 => ("TEBEG"@, IncarTagType::Real),
        _ => ("TEEND"@, IncarTagType::Real),
    }
}

/// The tags of the standard table, each with its kind.
pub open spec fn standard_entries() -> Seq<(Seq<char>, IncarTagType)> {
    Seq::new(STANDARD_TAGS as nat, |i: int| standard_entry(i as usize))
}

/// The tag of index `i` of the standard table, with its kind.
fn standard_tag(i: usize) -> (r: (&'static str, IncarTagType))
    ensures
        (r.0@, r.1) == standard_entry(i),
{
    match i {
        0 => ("ADDGRID", IncarTagType::Bool),
        1 => ("AEXX", IncarTagType::Real),
        2 => ("AGGAC", IncarTagType::Real),
        3 => ("ALGO", IncarTagType::String),
        4 => ("AMIN", IncarTagType::Real),
        5 => ("AMIX", IncarTagType::Real),
        6 => ("AMIX_MAG", IncarTagType::Real),
        7 => ("BMIX", IncarTagType::Real),
        8 => ("BMIX_MAG", IncarTagType::Real),
        9 => ("DIPOL", IncarTagType::RealArray),
        10 => ("EDIFF", IncarTagType::Real),
        11 => ("EDIFFG", IncarTagType::Real),
        12 => ("EMAX", IncarTagType::Real),
        13 => ("EMIN", IncarTagType::Real),
        14 => ("ENAUG", IncarTagType::Real),
        15 => ("ENCUT", IncarTagType::Real),
        16 => ("GGA", IncarTagType::String),
        17 => ("HFSCREEN", IncarTagType::Real),
        18 => ("IBRION", IncarTagType::Integer),
        19 => ("ICHARG", IncarTagType::Integer),
        20 => ("IDIPOL", IncarTagType::Integer),
        21 => ("IMAGES", IncarTagType::Integer),
        22 => ("ISIF", IncarTagType::Integer),
        23 => ("ISMEAR", IncarTagType::Integer),
        24 => ("ISPIN", IncarTagType::Integer),
        25 => ("ISTART", IncarTagType::Integer),
        26 => ("ISYM", IncarTagType::Integer),
        27 => ("IVDW", IncarTagType::Integer),
        28 => ("KPAR", IncarTagType::Integer),
        29 => ("KSPACING", IncarTagType::Real),
        30 => ("LAECHG", IncarTagType::Bool),
        31 => ("LASPH", IncarTagType::Bool),
        32 => ("LCHARG", IncarTagType::Bool),
        33 => ("LDAU", IncarTagType::Bool),
        34 => ("LDAUJ", IncarTagType::RealArray),
        35 => ("LDAUL", IncarTagType::IntegerArray),
        36 => ("LDAUPRINT", IncarTagType::Integer),
        37 => ("LDAUTYPE", IncarTagType::Integer),
        38 => ("LDAUU", IncarTagType::RealArray),
        39 => ("LDIPOL", IncarTagType::Bool),
        40 => ("LELF", IncarTagType::Bool),
        41 => ("LEPSILON", IncarTagType::Bool),
        42 => ("LHFCALC", IncarTagType::Bool),
        43 => ("LMAXMIX", IncarTagType::Integer),
        44 => ("LNONCOLLINEAR", IncarTagType::Bool),
        45 => ("LOPTICS", IncarTagType::Bool),
        46 => ("LORBIT", IncarTagType::Integer),
        47 => ("LPLANE", IncarTagType::Bool),
        48 => ("LREAL", IncarTagType::String),
        49 => ("LSORBIT", IncarTagType::Bool),
        50 => ("LVHAR", IncarTagType::Bool),
        51 => ("LVTOT", IncarTagType::Bool),
        52 => ("LWAVE", IncarTagType::Bool),
        53 => ("MAGMOM", IncarTagType::RealArray),
        54 => ("MDALGO", IncarTagType::Integer),
        55 => ("NBANDS", IncarTagType::Integer),
        56 => ("NCORE", IncarTagType::Integer),
        57 => ("NEDOS", IncarTagType::Integer),
        58 => ("NELECT", IncarTagType::Real),
        59 => ("NELM", IncarTagType::Integer),
        60 => ("NELMIN", IncarTagType::Integer),
        61 => ("NFREE", IncarTagType::Integer),
        62 => ("NPAR", IncarTagType::Integer),
        63 => ("NSIM", IncarTagType::Integer),
        64 => ("NSW", IncarTagType::Integer),
        65 => ("NUPDOWN", IncarTagType::Real),
        66 => ("POTIM", IncarTagType::Real),
        67 => ("PREC", IncarTagType::String),
        68 => ("SAXIS", IncarTagType::RealArray),
        69 => ("SIGMA", IncarTagType::Real),
        70 => ("SMASS", IncarTagType::Real),
        71 => ("SYMPREC", IncarTagType::Real),
        72 => ("SYSTEM", IncarTagType::String),
        73 => ("TEBEG", IncarTagType::Real),
        _ => ("TEEND", IncarTagType::Real),
    }
}

impl TagSchema {
    /// The table of the tags that the electronic-structure code documents
    /// and that job files commonly set.
    pub fn standard() -> (s: TagSchema)
        ensures
            s@ == standard_entries(),
    {
        let mut s = TagSchema { entries: Vec::new() };
        let mut i: usize = 0;
        while i < STANDARD_TAGS
            invariant
                i <= STANDARD_TAGS,
                s.entries.len() == i,
                forall|j: int|
                    0 <= j < i ==> ((#[trigger] s.entries[j]).0@, s.entries[j].1)
                        == standard_entry(j as usize),
            decreases STANDARD_TAGS - i,
        {
            let (name, kind) = standard_tag(i);
            s.entries.push((name.to_owned(), kind));
            i += 1;
        }
        assert(s@ =~= standard_entries());
        s
    }
}

} // verus!
