//! Passport records: fields `key:value` separated by blanks, records
//! separated by empty lines, and the rules that a valid passport meets.

use vstd::prelude::*;
use crate::text::{parse_unsigned, slice_range, split, value_of, all_digits, words};

verus! {

/// The unit of a height.
#[derive(Debug, Clone, Copy, PartialEq, Eq, Structural)]
pub enum Unit {
    Centimeter,
    Inch,
    Missing,
}

impl Unit {
    /// `cm` is centimeters, `in` inches, anything else no unit.
    pub fn parse(s: &[u8]) -> (r: Unit)
        ensures
            r == if s@ == seq![99u8, 109] {
                Unit::Centimeter
            } else if s@ == seq![105u8, 110] {
                Unit::Inch
            } else {
                Unit::Missing
            },
    {
        if s.len() == 2 && s[0] == 99 && s[1] == 109 {
            assert(s@ =~= seq![99u8, 109]);
            Unit::Centimeter
        } else if s.len() == 2 && s[0] == 105 && s[1] == 110 {
            assert(s@ =~= seq![105u8, 110]);
            Unit::Inch
        } else {
            Unit::Missing
        }
    }
}

/// One field of a passport record, or the end of a record.
#[derive(Debug)]
pub enum Property {
    Id(Vec<u8>),
    CountryId(Vec<u8>),
    BirthYear(usize),
    IssueYear(usize),
    ExpirationYear(usize),
    Height(usize, Unit),
    HairColor(Vec<u8>),
    EyeColor(Vec<u8>),
    EndPasseport,
}

/// Whether `key` is the three letters `a`, `b`, `c`.
pub open spec fn is_key(key: Seq<u8>, a: u8, b: u8, c: u8) -> bool {
    key.len() == 3 && key[0] == a && key[1] == b && key[2] == c
}

/// Whether `key` holds the three letters `a`, `b`, `c`.
fn key_is(key: &Vec<u8>, a: u8, b: u8, c: u8) -> (r: bool)
    ensures
        r == is_key(key@, a, b, c),
{
    key.len() == 3 && key[0] == a && key[1] == b && key[2] == c
}

/// Reads a year or another count; `None` where it is no number.
fn parse_count(s: &Vec<u8>) -> (r: Option<usize>)
    ensures
        r is Some ==> all_digits(s@) && r->Some_0 == value_of(s@),
{
    match parse_unsigned(s.as_slice()) {
        Some(v) => if v <= usize::MAX as u64 {
            Some(v as usize)
        } else {
            None
        },
        None => None,
    }
}

impl Property {
    /// Reads one `key:value` field, the value running to the end of the
    /// word; the empty word ends a record. `None` for an unknown key, a
    /// missing colon, or a year or height that is no number.
    pub fn parse(word: &[u8]) -> (r: Option<Property>)
        ensures
            word@.len() == 0 ==> r == Some(Property::EndPasseport),
            r is Some && word@.len() > 0 ==> word@.len() >= 4 && word@[3] == 58,
    {
        if word.len() == 0 {
            return Some(Property::EndPasseport);
        }
        if word.len() < 4 || word[3] != 58 {
            return None;
        }
        let key = slice_range(word, 0, 3);
        let value = slice_range(word, 4, word.len());
        if key_is(&key, 112, 105, 100) {
            Some(Property::Id(value))
        } else if key_is(&key, 99, 105, 100) {
            Some(Property::CountryId(value))
        } else if key_is(&key, 98, 121, 114) {
            match parse_count(&value) {
                Some(v) => Some(Property::BirthYear(v)),
                None => None,
            }
        } else if key_is(&key, 105, 121, 114) {
            match parse_count(&value) {
                Some(v) => Some(Property::IssueYear(v)),
                None => None,
            }
        } else if key_is(&key, 101, 121, 114) {
            match parse_count(&value) {
                Some(v) => Some(Property::ExpirationYear(v)),
                None => None,
            }
        } else if key_is(&key, 104, 103, 116) {
            if value.len() < 2 {
                return None;
            }
            let n = value.len();
            let tail = slice_range(value.as_slice(), n - 2, n);
            let unit = Unit::parse(tail.as_slice());
            let end = match unit {
                Unit::Missing => n,
                _ => n - 2,
            };
            let number = slice_range(value.as_slice(), 0, end);
            match parse_count(&number) {
                Some(h) => Some(Property::Height(h, unit)),
                None => None,
            }
        } else if key_is(&key, 104, 99, 108) {
            Some(Property::HairColor(value))
        } else if key_is(&key, 101, 99, 108) {
            Some(Property::EyeColor(value))
        } else {
            None
        }
    }
}

/// Reads every field of the text in order: the words of each line, and the
/// end of a record for each empty line. `None` where a word is no field.
pub fn properties(text: &str) -> (r: Option<Vec<Property>>)
{
    let lines = split(text.as_bytes(), 10);
    let mut props: Vec<Property> = Vec::new();
    let mut i: usize = 0;
    while i < lines.len()
        invariant
            i <= lines@.len(),
        decreases lines@.len() - i,
    {
        let ws = words(lines[i].as_slice());
        if ws.len() == 0 {
            props.push(Property::EndPasseport);
        }
        let mut k: usize = 0;
        while k < ws.len()
            invariant
                k <= ws@.len(),
            decreases ws@.len() - k,
        {
            match Property::parse(ws[k].as_slice()) {
                Some(p) => props.push(p),
                None => return None,
            }
            k = k + 1;
        }
        i = i + 1;
    }
    Some(props)
}

/// The fields of a record read so far.
#[derive(Debug)]
pub struct PasseportBuilder {
    pub id: Option<Vec<u8>>,
    pub country_id: Option<Vec<u8>>,
    pub birth_year: Option<usize>,
    pub issue_year: Option<usize>,
    pub expiration_year: Option<usize>,
    pub height: Option<(usize, Unit)>,
    pub hair_color: Option<Vec<u8>>,
    pub eye_color: Option<Vec<u8>>,
}

/// A passport with every field that it must have.
#[derive(Debug)]
pub struct Passeport {
    pub id: Vec<u8>,
    pub country_id: Option<Vec<u8>>,
    pub birth_year: usize,
    pub issue_year: usize,
    pub expiration_year: usize,
    pub height: (usize, Unit),
    pub hair_color: Vec<u8>,
    pub eye_color: Vec<u8>,
}

impl Default for Passeport {
    fn default() -> (r: Passeport)
        ensures
            r.id@.len() == 0 && r.country_id is None && r.birth_year == 0 && r.issue_year == 0 && r.expiration_year
                == 0 && r.height == (0usize, Unit::Missing) && r.hair_color@.len() == 0 && r.eye_color@.len() == 0,
    {
        Passeport {
            id: Vec::new(),
            country_id: None,
            birth_year: 0,
            issue_year: 0,
            expiration_year: 0,
            height: (0, Unit::Missing),
            hair_color: Vec::new(),
            eye_color: Vec::new(),
        }
    }
}

impl PasseportBuilder {
    /// A record with no field yet.
    pub fn new() -> (r: PasseportBuilder)
        ensures
            r.id is None && r.country_id is None && r.birth_year is None && r.issue_year is None
                && r.expiration_year is None && r.height is None && r.hair_color is None && r.eye_color is None,
    {
        PasseportBuilder {
            id: None,
            country_id: None,
            birth_year: None,
            issue_year: None,
            expiration_year: None,
            height: None,
            hair_color: None,
            eye_color: None,
        }
    }

    /// Sets the passport identifier.
    pub fn id(self, id: Vec<u8>) -> (r: PasseportBuilder)
        ensures
            r.id == Some(id),
            r.birth_year == self.birth_year && r.issue_year == self.issue_year && r.expiration_year
                == self.expiration_year && r.height == self.height,
    {
        PasseportBuilder { id: Some(id), ..self }
    }

    /// Sets the country identifier.
    pub fn country_id(self, country_id: Vec<u8>) -> (r: PasseportBuilder)
        ensures
            r.country_id == Some(country_id),
            r.birth_year == self.birth_year && r.issue_year == self.issue_year && r.expiration_year
                == self.expiration_year && r.height == self.height,
    {
        PasseportBuilder { country_id: Some(country_id), ..self }
    }

    /// Sets the birth year.
    pub fn birth_year(self, birth_year: usize) -> (r: PasseportBuilder)
        ensures
            r.birth_year == Some(birth_year),
            r.issue_year == self.issue_year && r.expiration_year == self.expiration_year && r.height == self.height,
    {
        PasseportBuilder { birth_year: Some(birth_year), ..self }
    }

    /// Sets the issue year.
    pub fn issue_year(self, issue_year: usize) -> (r: PasseportBuilder)
        ensures
            r.issue_year == Some(issue_year),
            r.birth_year == self.birth_year && r.expiration_year == self.expiration_year && r.height == self.height,
    {
        PasseportBuilder { issue_year: Some(issue_year), ..self }
    }

    /// Sets the expiration year.
    pub fn expiration_year(self, expiration_year: usize) -> (r: PasseportBuilder)
        ensures
            r.expiration_year == Some(expiration_year),
            r.birth_year == self.birth_year && r.issue_year == self.issue_year && r.height == self.height,
    {
        PasseportBuilder { expiration_year: Some(expiration_year), ..self }
    }

    /// Sets the height.
    pub fn height(self, height: usize, unit: Unit) -> (r: PasseportBuilder)
        ensures
            r.height == Some((height, unit)),
            r.birth_year == self.birth_year && r.issue_year == self.issue_year && r.expiration_year
                == self.expiration_year,
    {
        PasseportBuilder { height: Some((height, unit)), ..self }
    }

    /// Sets the hair color.
    pub fn hair_color(self, hair_color: Vec<u8>) -> (r: PasseportBuilder)
        ensures
            r.hair_color == Some(hair_color),
            r.birth_year == self.birth_year && r.issue_year == self.issue_year && r.expiration_year
                == self.expiration_year && r.height == self.height,
    {
        PasseportBuilder { hair_color: Some(hair_color), ..self }
    }

    /// Sets the eye color.
    pub fn eye_color(self, eye_color: Vec<u8>) -> (r: PasseportBuilder)
        ensures
            r.eye_color == Some(eye_color),
            r.birth_year == self.birth_year && r.issue_year == self.issue_year && r.expiration_year
                == self.expiration_year && r.height == self.height,
    {
        PasseportBuilder { eye_color: Some(eye_color), ..self }
    }

    /// The passport, where every field but the country identifier is there.
    pub fn build(self) -> (r: Option<Passeport>)
        ensures
            r is Some <==> self.id is Some && self.birth_year is Some && self.issue_year is Some
                && self.expiration_year is Some && self.height is Some && self.hair_color is Some
                && self.eye_color is Some,
            r is Some ==> r->Some_0.birth_year == self.birth_year->Some_0 && r->Some_0.issue_year
                == self.issue_year->Some_0 && r->Some_0.expiration_year == self.expiration_year->Some_0
                && r->Some_0.height == self.height->Some_0,
    {
        let id = match self.id {
            Some(v) => v,
            None => return None,
        };
        let birth_year = match self.birth_year {
            Some(v) => v,
            None => return None,
        };
        let issue_year = match self.issue_year {
            Some(v) => v,
            None => return None,
        };
        let expiration_year = match self.expiration_year {
            Some(v) => v,
            None => return None,
        };
        let height = match self.height {
            Some(v) => v,
            None => return None,
        };
        let hair_color = match self.hair_color {
            Some(v) => v,
            None => return None,
        };
        let eye_color = match self.eye_color {
            Some(v) => v,
            None => return None,
        };
        Some(Passeport {
            id,
            country_id: self.country_id,
            birth_year,
            issue_year,
            expiration_year,
            height,
            hair_color,
            eye_color,
        })
    }
}

/// Whether a byte is a lower-case hexadecimal digit.
pub open spec fn is_hex(b: u8) -> bool {
    (48 <= b <= 57) || (97 <= b <= 102)
}

/// The eye colors that a passport may give.
pub open spec fn is_eye_color(c: Seq<u8>) -> bool {
    c == seq![97u8, 109, 98] || c == seq![98u8, 108, 117] || c == seq![98u8, 114, 110] || c == seq![103u8, 114, 121]
        || c == seq![103u8, 114, 110] || c == seq![104u8, 122, 108] || c == seq![111u8, 116, 104]
}

impl Passeport {
    /// The identifier has nine characters.
    pub fn check_id(&self) -> (r: bool)
        ensures
            r == (self.id@.len() == 9),
    {
        self.id.len() == 9
    }

    /// Born from 1920 to 2002.
    pub fn check_birth_year(&self) -> (r: bool)
        ensures
            r == (1920 <= self.birth_year <= 2002),
    {
        self.birth_year >= 1920 && self.birth_year <= 2002
    }

    /// Issued from 2010 to 2020.
    pub fn check_issue_year(&self) -> (r: bool)
        ensures
            r == (2010 <= self.issue_year <= 2020),
    {
        self.issue_year >= 2010 && self.issue_year <= 2020
    }

    /// Expiring from 2020 to 2030.
    pub fn check_expiration_year(&self) -> (r: bool)
        ensures
            r == (2020 <= self.expiration_year <= 2030),
    {
        self.expiration_year >= 2020 && self.expiration_year <= 2030
    }

    /// From 150 to 193 centimeters, or from 59 to 76 inches.
    pub fn check_height(&self) -> (r: bool)
        ensures
            r == match self.height.1 {
                Unit::Centimeter => 150 <= self.height.0 <= 193,
                Unit::Inch => 59 <= self.height.0 <= 76,
                Unit::Missing => false,
            },
    {
        match self.height.1 {
            Unit::Centimeter => self.height.0 >= 150 && self.height.0 <= 193,
            Unit::Inch => self.height.0 >= 59 && self.height.0 <= 76,
            Unit::Missing => false,
        }
    }

    /// A `#` and six lower-case hexadecimal digits.
    pub fn check_hair_color(&self) -> (r: bool)
        ensures
            r == (self.hair_color@.len() == 7 && self.hair_color@[0] == 35 && forall|i: int|
                1 <= i < 7 ==> is_hex(#[trigger] self.hair_color@[i])),
    {
        let c = &self.hair_color;
        if c.len() != 7 || c[0] != 35 {
            return false;
        }
        let mut i: usize = 1;
        while i < 7
            invariant
                c@ == self.hair_color@,
                c@.len() == 7,
                1 <= i <= 7,
                forall|j: int| 1 <= j < i ==> is_hex(#[trigger] c@[j]),
            decreases 7 - i,
        {
            let b = c[i];
            if !((b >= 48 && b <= 57) || (b >= 97 && b <= 102)) {
                assert(!is_hex(c@[i as int]));
                return false;
            }
            i = i + 1;
        }
        true
    }

    /// One of `amb`, `blu`, `brn`, `gry`, `grn`, `hzl` and `oth`.
    pub fn check_eye_color(&self) -> (r: bool)
        ensures
            r == is_eye_color(self.eye_color@),
    {
        let c = &self.eye_color;
        if c.len() != 3 {
            proof {
                assert(c@.len() != 3);
                assert(seq![97u8, 109, 98].len() == 3);
            }
            return false;
        }
        let (a, b, d) = (c[0], c[1], c[2]);
        let r = (a == 97 && b == 109 && d == 98) || (a == 98 && b == 108 && d == 117) || (a == 98 && b == 114 && d
            == 110) || (a == 103 && b == 114 && d == 121) || (a == 103 && b == 114 && d == 110) || (a == 104 && b
            == 122 && d == 108) || (a == 111 && b == 116 && d == 104);
        proof {
            let s = c@;
            assert(s =~= seq![a, b, d]);
        }
        r
    }

    /// Every rule at once.
    pub fn check(&self) -> (r: bool)
        ensures
            r == (self.id@.len() == 9 && 1920 <= self.birth_year <= 2002 && 2010 <= self.issue_year <= 2020 && 2020
                <= self.expiration_year <= 2030 && match self.height.1 {
                Unit::Centimeter => 150 <= self.height.0 <= 193,
                Unit::Inch => 59 <= self.height.0 <= 76,
                Unit::Missing => false,
            } && self.hair_color@.len() == 7 && self.hair_color@[0] == 35 && (forall|i: int|
                1 <= i < 7 ==> is_hex(#[trigger] self.hair_color@[i])) && is_eye_color(self.eye_color@)),
    {
        self.check_id() && self.check_birth_year() && self.check_issue_year() && self.check_expiration_year()
            && self.check_height() && self.check_hair_color() && self.check_eye_color()
    }
}

/// The complete passports among the records of `properties`: each record
/// runs to the next end of record, and one that lacks a field is skipped.
pub fn passeports(properties: Vec<Property>) -> (r: Vec<Passeport>)
{
    let mut found: Vec<Passeport> = Vec::new();
    let mut builder = PasseportBuilder::new();
    let mut props = properties;
    let mut n = props.len();
    while n > 0
        invariant
            n == props@.len(),
        decreases n,
    {
        let p = props.remove(0);
        n = n - 1;
        builder = match p {
            Property::Id(v) => builder.id(v),
            Property::CountryId(v) => builder.country_id(v),
            Property::BirthYear(v) => builder.birth_year(v),
            Property::IssueYear(v) => builder.issue_year(v),
            Property::ExpirationYear(v) => builder.expiration_year(v),
            Property::Height(h, u) => builder.height(h, u),
            Property::HairColor(v) => builder.hair_color(v),
            Property::EyeColor(v) => builder.eye_color(v),
            Property::EndPasseport => {
                match builder.build() {
                    Some(passeport) => found.push(passeport),
                    None => {},
                }
                PasseportBuilder::new()
            },
        };
    }
    match builder.build() {
        Some(passeport) => found.push(passeport),
        None => {},
    }
    found
}

} // verus!
