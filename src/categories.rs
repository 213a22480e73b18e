//! The category taxonomy and its byte encoding.
use vstd::prelude::*;

use crate::error::{agrees, Error, ErrorKind, PResult};
use crate::wire::{
    enc_string, enc_u8, fits_prefix, holds_at, lemma_holds_split, lemma_string_round_trip, lemma_u8_round_trip,
    parse_string, parse_u8, read_string, read_u8, string_fits, write_string, write_u8,
};

verus! {

/// Number of fixed subcategories; bytes from here on name custom categories.
pub const SUBCATEGORY_COUNT: u8 = 30;

/// The category of a tossup or bonus: one of the fixed subcategories, or the
/// index of one of the enclosing set's custom categories.
#[derive(Clone, Copy, PartialEq, Eq, Structural, Debug)]
pub enum Category {
    Subcategory(Subcategory),
    Custom(u8),
}

/// A general category of a tossup or bonus. This gives the general idea of what a
/// question is about vs the more specific `Subcategory`.
#[derive(Clone, Copy, PartialEq, Eq, Structural, Debug)]
pub enum BroadCategory {
    Literature,
    History,
    Science,
    Arts,
    /// Religion, Mythology, Philosophy, Social Science
    Rmpss,
    Geography,
    Other,
    Trash,
}

/// A set's custom category.
#[derive(Clone, PartialEq, Debug)]
pub struct CustomCategory {
    pub name: String,
    pub general: BroadCategory,
}

pub ghost struct CustomCategoryView {
    pub name: Seq<char>,
    pub general: BroadCategory,
}

/// The more specific category for a Bonus/Tossup. The order of the variants
/// is their byte on the wire.
#[derive(Clone, Copy, PartialEq, Eq, Structural, Debug)]
pub enum Subcategory {
    AmericanLit,
    BritishLit,
    ClassicalLit,
    EuropeanLit,
    WorldLit,
    OtherLit,
    AmericanHist,
    AncientHist,
    EuropeanHist,
    WorldHist,
    OtherHist,
    Biology,
    Chemistry,
    Physics,
    Math,
    Astronomy,
    EarthSci,
    ComputerSci,
    OtherSci,
    VisualFineArts,
    AuditoryFineArts,
    OtherFineArts,
    Religion,
    Mythology,
    Philosophy,
    SocialScience,
    /// Religion, mythology, philosophy, and social science
    OtherRmpss,
    Geography,
    OtherAcademic,
    Trash,
}

impl View for Category {
    type V = Category;

    open spec fn view(&self) -> Category {
        *self
    }
}

impl View for CustomCategory {
    type V = CustomCategoryView;

    open spec fn view(&self) -> CustomCategoryView {
        CustomCategoryView { name: self.name@, general: self.general }
    }
}

/// The subcategory whose ordinal is `b`, if there is one.
pub open spec fn subcategory_of(b: u8) -> Option<Subcategory> {
    match b {
        0 => Some(Subcategory::AmericanLit),
        1 => Some(Subcategory::BritishLit),
        2 => Some(Subcategory::ClassicalLit),
        3 => Some(Subcategory::EuropeanLit),
        4 => Some(Subcategory::WorldLit),
        5 => Some(Subcategory::OtherLit),
        6 => Some(Subcategory::AmericanHist),
        7 => Some(Subcategory::AncientHist),
        8 => Some(Subcategory::EuropeanHist),
        9 => Some(Subcategory::WorldHist),
        10 => Some(Subcategory::OtherHist),
        11 => Some(Subcategory::Biology),
        12 => Some(Subcategory::Chemistry),
        13 => Some(Subcategory::Physics),
        14 => Some(Subcategory::Math),
        15 => Some(Subcategory::Astronomy),
        16 => Some(Subcategory::EarthSci),
        17 => Some(Subcategory::ComputerSci),
        18 => Some(Subcategory::OtherSci),
        19 => Some(Subcategory::VisualFineArts),
        20 => Some(Subcategory::AuditoryFineArts),
        21 => Some(Subcategory::OtherFineArts),
        22 => Some(Subcategory::Religion),
        23 => Some(Subcategory::Mythology),
        24 => Some(Subcategory::Philosophy),
        25 => Some(Subcategory::SocialScience),
        26 => Some(Subcategory::OtherRmpss),
        27 => Some(Subcategory::Geography),
        28 => Some(Subcategory::OtherAcademic),
        29 => Some(Subcategory::Trash),
        _ => None,
    }
}

impl Subcategory {
    /// The wire byte of this subcategory.
    pub open spec fn spec_ordinal(self) -> u8 {
        match self {
            Subcategory::AmericanLit => 0,
            Subcategory::BritishLit => 1,
            Subcategory::ClassicalLit => 2,
            Subcategory::EuropeanLit => 3,
            Subcategory::WorldLit => 4,
            Subcategory::OtherLit => 5,
            Subcategory::AmericanHist => 6,
            Subcategory::AncientHist => 7,
            Subcategory::EuropeanHist => 8,
            Subcategory::WorldHist => 9,
            Subcategory::OtherHist => 10,
            Subcategory::Biology => 11,
            Subcategory::Chemistry => 12,
            Subcategory::Physics => 13,
            Subcategory::Math => 14,
            Subcategory::Astronomy => 15,
            Subcategory::EarthSci => 16,
            Subcategory::ComputerSci => 17,
            Subcategory::OtherSci => 18,
            Subcategory::VisualFineArts => 19,
            Subcategory::AuditoryFineArts => 20,
            Subcategory::OtherFineArts => 21,
            Subcategory::Religion => 22,
            Subcategory::Mythology => 23,
            Subcategory::Philosophy => 24,
            Subcategory::SocialScience => 25,
            Subcategory::OtherRmpss => 26,
            Subcategory::Geography => 27,
            Subcategory::OtherAcademic => 28,
            Subcategory::Trash => 29,
        }
    }

    pub open spec fn spec_broad_category(self) -> BroadCategory {
        match self {
            Subcategory::AmericanLit | Subcategory::ClassicalLit | Subcategory::BritishLit | Subcategory::EuropeanLit | Subcategory::WorldLit | Subcategory::OtherLit => BroadCategory::Literature,
            Subcategory::AmericanHist | Subcategory::AncientHist | Subcategory::EuropeanHist | Subcategory::WorldHist | Subcategory::OtherHist => BroadCategory::History,
            Subcategory::Biology | Subcategory::Chemistry | Subcategory::Math | Subcategory::Physics | Subcategory::Astronomy | Subcategory::EarthSci | Subcategory::ComputerSci | Subcategory::OtherSci => BroadCategory::Science,
            Subcategory::VisualFineArts | Subcategory::AuditoryFineArts | Subcategory::OtherFineArts => BroadCategory::Arts,
            Subcategory::Religion | Subcategory::Mythology | Subcategory::Philosophy | Subcategory::SocialScience | Subcategory::OtherRmpss => BroadCategory::Rmpss,
            Subcategory::Geography => BroadCategory::Geography,
            Subcategory::OtherAcademic => BroadCategory::Other,
            Subcategory::Trash => BroadCategory::Trash,
        }
    }

    /// The wire byte of this subcategory.
    pub fn ordinal(&self) -> (r: u8)
        ensures
            r == self.spec_ordinal(),
            r < SUBCATEGORY_COUNT,
    {
        match *self {
            Subcategory::AmericanLit => 0,
            Subcategory::BritishLit => 1,
            Subcategory::ClassicalLit => 2,
            Subcategory::EuropeanLit => 3,
            Subcategory::WorldLit => 4,
            Subcategory::OtherLit => 5,
            Subcategory::AmericanHist => 6,
            Subcategory::AncientHist => 7,
            Subcategory::EuropeanHist => 8,
            Subcategory::WorldHist => 9,
            Subcategory::OtherHist => 10,
            Subcategory::Biology => 11,
            Subcategory::Chemistry => 12,
            Subcategory::Physics => 13,
            Subcategory::Math => 14,
            Subcategory::Astronomy => 15,
            Subcategory::EarthSci => 16,
            Subcategory::ComputerSci => 17,
            Subcategory::OtherSci => 18,
            Subcategory::VisualFineArts => 19,
            Subcategory::AuditoryFineArts => 20,
            Subcategory::OtherFineArts => 21,
            Subcategory::Religion => 22,
            Subcategory::Mythology => 23,
            Subcategory::Philosophy => 24,
            Subcategory::SocialScience => 25,
            Subcategory::OtherRmpss => 26,
            Subcategory::Geography => 27,
            Subcategory::OtherAcademic => 28,
            Subcategory::Trash => 29,
        }
    }

    /// The subcategory with ordinal `b`; ordinals past the last are malformed.
    pub fn from_ordinal(b: u8) -> (r: Result<Subcategory, Error>)
        ensures
            b < SUBCATEGORY_COUNT <==> r is Ok,
            r matches Ok(s) ==> subcategory_of(b) == Some(s) && s.spec_ordinal() == b,
            r matches Err(e) ==> e.spec_kind() == ErrorKind::MalformedInput,
    {
        match b {
            0 => Ok(Subcategory::AmericanLit),
            1 => Ok(Subcategory::BritishLit),
            2 => Ok(Subcategory::ClassicalLit),
            3 => Ok(Subcategory::EuropeanLit),
            4 => Ok(Subcategory::WorldLit),
            5 => Ok(Subcategory::OtherLit),
            6 => Ok(Subcategory::AmericanHist),
            7 => Ok(Subcategory::AncientHist),
            8 => Ok(Subcategory::EuropeanHist),
            9 => Ok(Subcategory::WorldHist),
            10 => Ok(Subcategory::OtherHist),
            11 => Ok(Subcategory::Biology),
            12 => Ok(Subcategory::Chemistry),
            13 => Ok(Subcategory::Physics),
            14 => Ok(Subcategory::Math),
            15 => Ok(Subcategory::Astronomy),
            16 => Ok(Subcategory::EarthSci),
            17 => Ok(Subcategory::ComputerSci),
            18 => Ok(Subcategory::OtherSci),
            19 => Ok(Subcategory::VisualFineArts),
            20 => Ok(Subcategory::AuditoryFineArts),
            21 => Ok(Subcategory::OtherFineArts),
            22 => Ok(Subcategory::Religion),
            23 => Ok(Subcategory::Mythology),
            24 => Ok(Subcategory::Philosophy),
            25 => Ok(Subcategory::SocialScience),
            26 => Ok(Subcategory::OtherRmpss),
            27 => Ok(Subcategory::Geography),
            28 => Ok(Subcategory::OtherAcademic),
            29 => Ok(Subcategory::Trash),
            _ => Err(Error::MalformedInput("ordinal does not name a subcategory".to_owned())),
        }
    }

    /// The display name of this subcategory.
    pub open spec fn spec_name(self) -> Seq<char> {
        match self {
            Subcategory::AmericanLit => "American Literature"@,
            Subcategory::BritishLit => "British Literature"@,
            Subcategory::ClassicalLit => "Classical Literature"@,
            Subcategory::EuropeanLit => "European Literature"@,
            Subcategory::WorldLit => "World Literature"@,
            Subcategory::OtherLit => "Other Literature"@,
            Subcategory::AmericanHist => "American History"@,
            Subcategory::AncientHist => "Ancient History"@,
            Subcategory::EuropeanHist => "European History"@,
            Subcategory::WorldHist => "World History"@,
            Subcategory::OtherHist => "Other History"@,
            Subcategory::Biology => "Biology"@,
            Subcategory::Chemistry => "Chemistry"@,
            Subcategory::Physics => "Physics"@,
            Subcategory::Math => "Math"@,
            Subcategory::Astronomy => "Astronomy"@,
            Subcategory::EarthSci => "Earth Science"@,
            Subcategory::ComputerSci => "Computer Science"@,
            Subcategory::OtherSci => "Other Science"@,
            Subcategory::VisualFineArts => "Visual Fine Arts"@,
            Subcategory::AuditoryFineArts => "Auditory Fine Arts"@,
            Subcategory::OtherFineArts => "Other Fine Arts"@,
            Subcategory::Religion => "Religion"@,
            Subcategory::Mythology => "Mythology"@,
            Subcategory::Philosophy => "Philosophy"@,
            Subcategory::SocialScience => "Social Science"@,
            Subcategory::OtherRmpss => "Other RMPSS"@,
            Subcategory::Geography => "Geography"@,
            Subcategory::OtherAcademic => "Other Academic"@,
            Subcategory::Trash => "Trash"@,
        }
    }

    /// The display name of this subcategory.
    pub fn name(&self) -> (r: &'static str)
        ensures
            r@ == self.spec_name(),
    {
        match *self {
            Subcategory::AmericanLit => "American Literature",
            Subcategory::BritishLit => "British Literature",
            Subcategory::ClassicalLit => "Classical Literature",
            Subcategory::EuropeanLit => "European Literature",
            Subcategory::WorldLit => "World Literature",
            Subcategory::OtherLit => "Other Literature",
            Subcategory::AmericanHist => "American History",
            Subcategory::AncientHist => "Ancient History",
            Subcategory::EuropeanHist => "European History",
            Subcategory::WorldHist => "World History",
            Subcategory::OtherHist => "Other History",
            Subcategory::Biology => "Biology",
            Subcategory::Chemistry => "Chemistry",
            Subcategory::Physics => "Physics",
            Subcategory::Math => "Math",
            Subcategory::Astronomy => "Astronomy",
            Subcategory::EarthSci => "Earth Science",
            Subcategory::ComputerSci => "Computer Science",
            Subcategory::OtherSci => "Other Science",
            Subcategory::VisualFineArts => "Visual Fine Arts",
            Subcategory::AuditoryFineArts => "Auditory Fine Arts",
            Subcategory::OtherFineArts => "Other Fine Arts",
            Subcategory::Religion => "Religion",
            Subcategory::Mythology => "Mythology",
            Subcategory::Philosophy => "Philosophy",
            Subcategory::SocialScience => "Social Science",
            Subcategory::OtherRmpss => "Other RMPSS",
            Subcategory::Geography => "Geography",
            Subcategory::OtherAcademic => "Other Academic",
            Subcategory::Trash => "Trash",
        }
    }

    /// What broad category does this fall under?
    pub fn broad_category(&self) -> (r: BroadCategory)
        ensures
            r == self.spec_broad_category(),
    {
        match *self {
            Subcategory::AmericanLit | Subcategory::ClassicalLit | Subcategory::BritishLit | Subcategory::EuropeanLit | Subcategory::WorldLit | Subcategory::OtherLit => BroadCategory::Literature,
            Subcategory::AmericanHist | Subcategory::AncientHist | Subcategory::EuropeanHist | Subcategory::WorldHist | Subcategory::OtherHist => BroadCategory::History,
            Subcategory::Biology | Subcategory::Chemistry | Subcategory::Math | Subcategory::Physics | Subcategory::Astronomy | Subcategory::EarthSci | Subcategory::ComputerSci | Subcategory::OtherSci => BroadCategory::Science,
            Subcategory::VisualFineArts | Subcategory::AuditoryFineArts | Subcategory::OtherFineArts => BroadCategory::Arts,
            Subcategory::Religion | Subcategory::Mythology | Subcategory::Philosophy | Subcategory::SocialScience | Subcategory::OtherRmpss => BroadCategory::Rmpss,
            Subcategory::Geography => BroadCategory::Geography,
            Subcategory::OtherAcademic => BroadCategory::Other,
            Subcategory::Trash => BroadCategory::Trash,
        }
    }
}

impl BroadCategory {
    pub open spec fn spec_as_subcat_other(self) -> Subcategory {
        match self {
            BroadCategory::Literature => Subcategory::OtherLit,
            BroadCategory::History => Subcategory::OtherHist,
            BroadCategory::Science => Subcategory::OtherSci,
            BroadCategory::Arts => Subcategory::OtherFineArts,
            BroadCategory::Rmpss => Subcategory::OtherRmpss,
            BroadCategory::Geography => Subcategory::Geography,
            BroadCategory::Other => Subcategory::OtherAcademic,
            BroadCategory::Trash => Subcategory::Trash,
        }
    }

    /// The "other" subcategory of this broad category, which stands for it on
    /// the wire.
    pub fn as_subcat_other(&self) -> (r: Subcategory)
        ensures
            r == self.spec_as_subcat_other(),
            r.spec_broad_category() == *self,
    {
        match *self {
            BroadCategory::Literature => Subcategory::OtherLit,
            BroadCategory::History => Subcategory::OtherHist,
            BroadCategory::Science => Subcategory::OtherSci,
            BroadCategory::Arts => Subcategory::OtherFineArts,
            BroadCategory::Rmpss => Subcategory::OtherRmpss,
            BroadCategory::Geography => Subcategory::Geography,
            BroadCategory::Other => Subcategory::OtherAcademic,
            BroadCategory::Trash => Subcategory::Trash,
        }
    }
}

/// The category that byte `b` stands for. Every byte names one: those past
/// the fixed subcategories name a custom category by its index.
pub open spec fn category_of_byte(b: u8) -> Category {
    match subcategory_of(b) {
        Some(s) => Category::Subcategory(s),
        None => Category::Custom((b - SUBCATEGORY_COUNT) as u8),
    }
}

impl Category {
    /// The category can be written: a custom index must fit in the byte
    /// after the fixed subcategories.
    pub open spec fn wf(self) -> bool {
        match self {
            Category::Subcategory(_) => true,
            Category::Custom(i) => i + SUBCATEGORY_COUNT <= 255,
        }
    }

    pub open spec fn spec_byte(self) -> u8 {
        match self {
            Category::Subcategory(s) => s.spec_ordinal(),
            Category::Custom(i) => (i + SUBCATEGORY_COUNT) as u8,
        }
    }

    /// Whether the category can be written.
    pub fn fits(&self) -> (r: bool)
        ensures
            r == self.wf(),
    {
        match *self {
            Category::Subcategory(_) => true,
            Category::Custom(i) => i <= 255 - SUBCATEGORY_COUNT,
        }
    }

    /// The category's display name: the subcategory's name, or the name of
    /// the custom category that the index picks out of `customs`.
    pub fn to_string(&self, customs: &[CustomCategory]) -> (r: String)
        requires
            self matches Category::Custom(i) ==> i < customs@.len(),
        ensures
            r@ == match *self {
                Category::Subcategory(s) => s.spec_name(),
                Category::Custom(i) => customs@[i as int].name@,
            },
    {
        match *self {
            Category::Subcategory(s) => s.name().to_owned(),
            Category::Custom(i) => customs[i as usize].name.clone(),
        }
    }

    /// Reads a category byte at `pos`.
    pub fn read_from(buf: &[u8], pos: usize) -> (r: Result<(Category, usize), Error>)
        ensures
            agrees(r, parse_category(buf@, pos as int)),
    {
        let (b, q) = match read_u8(buf, pos) {
            Ok(x) => x,
            Err(e) => return Err(e),
        };
        match Subcategory::from_ordinal(b) {
            Ok(s) => Ok((Category::Subcategory(s), q)),
            Err(_) => Ok((Category::Custom(b - SUBCATEGORY_COUNT), q)),
        }
    }

    /// Appends the category's byte.
    pub fn write_to(&self, out: &mut Vec<u8>)
        requires
            self.wf(),
        ensures
            final(out)@ == old(out)@ + enc_category(*self),
    {
        match *self {
            Category::Custom(i) => write_u8(out, i + SUBCATEGORY_COUNT),
            Category::Subcategory(s) => write_u8(out, s.ordinal()),
        }
    }
}

pub open spec fn parse_category(s: Seq<u8>, p: int) -> PResult<Category> {
    match parse_u8(s, p) {
        Err(k) => Err(k),
        Ok((b, q)) => Ok((category_of_byte(b), q)),
    }
}

pub open spec fn enc_category(c: Category) -> Seq<u8> {
    enc_u8(c.spec_byte())
}

/// A custom category: its name, then the ordinal of the subcategory that
/// stands for its broad category.
pub open spec fn parse_custom_category(s: Seq<u8>, p: int) -> PResult<CustomCategoryView> {
    match parse_string(s, p) {
        Err(k) => Err(k),
        Ok((name, q)) => match parse_u8(s, q) {
            Err(k) => Err(k),
            Ok((b, r)) => match subcategory_of(b) {
                None => Err(ErrorKind::MalformedInput),
                Some(sub) => Ok((CustomCategoryView { name, general: sub.spec_broad_category() }, r)),
            },
        },
    }
}

pub open spec fn enc_custom_category(c: CustomCategoryView) -> Seq<u8> {
    enc_string(c.name) + enc_u8(c.general.spec_as_subcat_other().spec_ordinal())
}

pub open spec fn custom_category_wf(c: CustomCategoryView) -> bool {
    string_fits(c.name)
}

impl CustomCategory {
    /// Whether the custom category can be written.
    pub fn fits(&self) -> (r: bool)
        ensures
            r == custom_category_wf(self@),
    {
        fits_prefix(self.name.as_str())
    }

    /// Reads a custom category at `pos`.
    pub fn read_from(buf: &[u8], pos: usize) -> (r: Result<(CustomCategory, usize), Error>)
        ensures
            agrees(r, parse_custom_category(buf@, pos as int)),
    {
        let (name, q) = match read_string(buf, pos) {
            Ok(x) => x,
            Err(e) => return Err(e),
        };
        let (b, r) = match read_u8(buf, q) {
            Ok(x) => x,
            Err(e) => return Err(e),
        };
        match Subcategory::from_ordinal(b) {
            Ok(sub) => Ok((CustomCategory { name, general: sub.broad_category() }, r)),
            Err(e) => Err(e),
        }
    }

    /// Appends the custom category's record.
    pub fn write_to(&self, out: &mut Vec<u8>)
        requires
            custom_category_wf(self@),
        ensures
            final(out)@ == old(out)@ + enc_custom_category(self@),
    {
        write_string(out, self.name.as_str());
        write_u8(out, self.general.as_subcat_other().ordinal());
        assert(final(out)@ =~= old(out)@ + enc_custom_category(self@));
    }
}

/// A category byte reads back as the category that wrote it.
pub proof fn lemma_category_round_trip(s: Seq<u8>, p: int, c: Category)
    requires
        c.wf(),
        holds_at(s, p, enc_category(c)),
    ensures
        parse_category(s, p) == Ok::<(Category, int), ErrorKind>((c, p + 1)),
{
    lemma_u8_round_trip(s, p, c.spec_byte());
}

pub proof fn lemma_custom_category_round_trip(s: Seq<u8>, p: int, c: CustomCategoryView)
    requires
        custom_category_wf(c),
        holds_at(s, p, enc_custom_category(c)),
    ensures
        parse_custom_category(s, p) == Ok::<(CustomCategoryView, int), ErrorKind>(
            (c, p + enc_custom_category(c).len()),
        ),
{
    let b = c.general.spec_as_subcat_other().spec_ordinal();
    lemma_holds_split(s, p, enc_string(c.name), enc_u8(b));
    lemma_string_round_trip(s, p, c.name);
    lemma_u8_round_trip(s, p + enc_string(c.name).len(), b);
}

} // verus!
