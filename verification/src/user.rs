//! Account data as the upstream service reports it, and its canonical
//! form.
//!
//! Dates live here as plain year, month and day with a real calendar
//! validity check, so that reading a birth date out of the raw digit
//! string the service sends is fully specified.

use vstd::prelude::*;

use crate::codec::{dval, is_digit};
use crate::model::Address;
use crate::text::chars_vec;

verus! {

/// A calendar date as plain numbers.
#[derive(Clone, Copy, Debug, PartialEq, Eq, Structural)]
pub struct DateYmd {
    pub year: i32,
    pub month: u8,
    pub day: u8,
}

/// A leap year of the Gregorian calendar.
pub open spec fn spec_is_leap_year(y: int) -> bool {
    y % 4 == 0 && (y % 100 != 0 || y % 400 == 0)
}

/// How many days the month of a year has.
pub open spec fn spec_days_in_month(y: int, m: int) -> int {
    if m == 2 {
        if spec_is_leap_year(y) {
            29
        } else {
            28
        }
    } else if m == 4 || m == 6 || m == 9 || m == 11 {
        30
    } else {
        31
    }
}

/// A date that exists on the Gregorian calendar.
pub open spec fn spec_valid_date(y: int, m: int, d: int) -> bool {
    1 <= m <= 12 && 1 <= d <= spec_days_in_month(y, m)
}

/// What a raw date-of-birth string denotes: its first eight characters
/// read as `YYYYMMDD`, provided they are digits and name a date that
/// exists.
pub open spec fn spec_parse_dob(s: Seq<char>) -> Option<DateYmd> {
    if s.len() < 8 {
        None
    } else if !(forall|k: int| 0 <= k < 8 ==> is_digit(#[trigger] s[k])) {
        None
    } else {
        let y = dval(s[0]) * 1000 + dval(s[1]) * 100 + dval(s[2]) * 10 + dval(s[3]);
        let m = dval(s[4]) * 10 + dval(s[5]);
        let d = dval(s[6]) * 10 + dval(s[7]);
        if spec_valid_date(y as int, m as int, d as int) {
            Some(DateYmd { year: y as i32, month: m as u8, day: d as u8 })
        } else {
            None
        }
    }
}

/// Read a date of birth from the raw digit string the service sends.
pub fn parse_dob(dob: &str) -> (r: Option<DateYmd>)
    ensures
        r == spec_parse_dob(dob@),
{
    let cs = chars_vec(dob);
    if cs.len() < 8 {
        return None;
    }
    let mut k: usize = 0;
    while k < 8
        invariant
            k <= 8,
            cs@ == dob@,
            cs@.len() >= 8,
            forall|m: int| 0 <= m < k ==> is_digit(#[trigger] cs@[m]),
        decreases 8 - k,
    {
        let c = cs[k];
        if !('0' <= c && c <= '9') {
            proof {
                assert(!is_digit(cs@[k as int]));
            }
            return None;
        }
        k = k + 1;
    }
    let y: u32 = digit_at(&cs, 0) * 1000 + digit_at(&cs, 1) * 100 + digit_at(&cs, 2) * 10
        + digit_at(&cs, 3);
    let m: u32 = digit_at(&cs, 4) * 10 + digit_at(&cs, 5);
    let d: u32 = digit_at(&cs, 6) * 10 + digit_at(&cs, 7);
    let leap = y % 4 == 0 && (y % 100 != 0 || y % 400 == 0);
    let days: u32 = if m == 2 {
        if leap {
            29
        } else {
            28
        }
    } else if m == 4 || m == 6 || m == 9 || m == 11 {
        30
    } else {
        31
    };
    if 1 <= m && m <= 12 && 1 <= d && d <= days {
        Some(DateYmd { year: y as i32, month: m as u8, day: d as u8 })
    } else {
        None
    }
}

/// One digit of a checked digit run.
fn digit_at(cs: &Vec<char>, k: usize) -> (r: u32)
    requires
        k < cs@.len(),
        is_digit(cs@[k as int]),
    ensures
        r == dval(cs@[k as int]),
        r <= 9,
{
    cs[k] as u32 - '0' as u32
}

/// A postal address with region and country, as the service reports it.
#[derive(Debug, PartialEq)]
pub struct FullAddress {
    pub street: String,
    pub city: String,
    pub postal_code: String,
    pub county: String,
    pub country: String,
}

/// Spec-level value of a `FullAddress`.
pub struct FullAddressV {
    pub street: Seq<char>,
    pub city: Seq<char>,
    pub postal_code: Seq<char>,
    pub county: Seq<char>,
    pub country: Seq<char>,
}

impl View for FullAddress {
    type V = FullAddressV;

    open spec fn view(&self) -> FullAddressV {
        FullAddressV {
            street: self.street@,
            city: self.city@,
            postal_code: self.postal_code@,
            county: self.county@,
            country: self.country@,
        }
    }
}

impl FullAddress {
    /// Drop region and country, keeping the plain address.
    pub fn into_address(self) -> (r: Address)
        ensures
            r.street@ == self.street@,
            r.city@ == self.city@,
            r.postal_code@ == self.postal_code@,
    {
        Address { street: self.street, city: self.city, postal_code: self.postal_code }
    }
}

/// Account data exactly as the service spells it.
#[derive(Debug, PartialEq)]
pub struct UserInfo {
    pub email: String,
    pub personalnumber: Option<String>,
    pub firstname: String,
    pub lastname: String,
    pub street: String,
    pub postalcode: String,
    pub city: String,
    pub county: String,
    pub country: String,
    pub mobilephone: String,
    pub startyear: String,
    pub startsemester: String,
    pub dateofbirth: String,
}

/// Canonical account data.
#[derive(Debug, PartialEq)]
pub struct User {
    pub email: String,
    pub personal_identity_number: Option<String>,
    pub first_name: String,
    pub last_name: String,
    pub address: FullAddress,
    pub mobile_phone: String,
    pub start_year: Option<u32>,
    pub start_semester: String,
    pub date_of_birth: Option<DateYmd>,
}

/// What a raw start-year string denotes: a plain decimal number.
pub open spec fn spec_parse_start_year(s: Seq<char>) -> Option<u32> {
    match crate::codec::spec_parse_u32(s, 0) {
        Some((n, j)) => if j == s.len() && s.len() > 0 {
            Some(n)
        } else {
            None
        },
        None => None,
    }
}

/// Read a start year.
fn parse_start_year(s: &str) -> (r: Option<u32>)
    ensures
        r == spec_parse_start_year(s@),
{
    let cs = chars_vec(s);
    match crate::codec::parse_u32(&cs, 0) {
        Some((n, j)) => {
            if j == cs.len() && cs.len() > 0 {
                Some(n)
            } else {
                None
            }
        },
        None => None,
    }
}

impl UserInfo {
    /// Normalise raw account data: regroup the address, read the start
    /// year and the date of birth out of their digit strings.
    pub fn into_user(self) -> (r: User)
        ensures
            r.email@ == self.email@,
            r.first_name@ == self.firstname@,
            r.last_name@ == self.lastname@,
            r.address.street@ == self.street@,
            r.address.city@ == self.city@,
            r.address.postal_code@ == self.postalcode@,
            r.address.county@ == self.county@,
            r.address.country@ == self.country@,
            r.mobile_phone@ == self.mobilephone@,
            r.start_year == spec_parse_start_year(self.startyear@),
            r.start_semester@ == self.startsemester@,
            r.date_of_birth == spec_parse_dob(self.dateofbirth@),
            match (r.personal_identity_number, self.personalnumber) {
                (Some(a), Some(b)) => a@ == b@,
                (None, None) => true,
                _ => false,
            },
    {
        let start_year = parse_start_year(self.startyear.as_str());
        let date_of_birth = parse_dob(self.dateofbirth.as_str());
        User {
            email: self.email,
            personal_identity_number: self.personalnumber,
            first_name: self.firstname,
            last_name: self.lastname,
            address: FullAddress {
                street: self.street,
                city: self.city,
                postal_code: self.postalcode,
                county: self.county,
                country: self.country,
            },
            mobile_phone: self.mobilephone,
            start_year,
            start_semester: self.startsemester,
            date_of_birth,
        }
    }
}

/// A caretaker exactly as the service spells it.
#[derive(Debug, PartialEq)]
pub struct HouseCaretaker {
    pub worker_id: String,
    pub login_id: String,
    pub name: String,
    pub phone: String,
    pub workphone: String,
    pub email: String,
}

/// A canonical worker contact.
#[derive(Debug, PartialEq)]
pub struct Worker {
    pub id: String,
    pub email: String,
    pub name: String,
    pub phone: String,
    pub work_phone: String,
}

impl HouseCaretaker {
    /// Normalise a caretaker into a worker contact.
    pub fn into_worker(self) -> (r: Worker)
        ensures
            r.id@ == self.worker_id@,
            r.email@ == self.email@,
            r.name@ == self.name@,
            r.phone@ == self.phone@,
            r.work_phone@ == self.workphone@,
    {
        Worker {
            id: self.worker_id,
            email: self.email,
            name: self.name,
            phone: self.phone,
            work_phone: self.workphone,
        }
    }
}

/// A storage room attached to a property.
#[derive(Debug, PartialEq)]
pub struct Store {
    pub included: bool,
    pub address: String,
    pub size: String,
}

/// Whether a shower is the tenant's own or shared.
#[derive(Debug, PartialEq)]
pub enum Shower {
    Own,
    Shared,
}

impl Shower {
    /// Read a shower kind from the label the service uses. Only the
    /// label for an own shower is ever sent; anything else is outside
    /// this function's domain.
    pub fn from_str(s: &str) -> (r: Shower)
        requires
            s@ == "Egen dusch"@,
        ensures
            r is Own,
    {
        let _ = s;
        Shower::Own
    }
}

/// Login credentials as the route layer receives them.
#[derive(Debug, PartialEq)]
pub struct EmailPassword {
    pub email: String,
    pub password: String,
}

} // verus!
