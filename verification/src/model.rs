//! The compliance record model: the environment classification, the
//! retest-interval table, and the record type whose next-due date is
//! derived from the test date and the environment.
use vstd::prelude::*;

use crate::date::{
    add_months, add_months_spec, date_valid, parse_date, parse_date_chars, Date, DateFormatError,
};
use crate::text::{is_decimal_chars, str_eq};

verus! {

/// Installation environment of an appliance; each class carries a fixed
/// retest interval.
#[derive(Clone, Copy, PartialEq, Eq, Structural, Debug)]
pub enum Environment {
    GalleyWshopWet,
    DC,
    Cabinets,
    Cabins,
    Cleaning,
    PrivateApp,
}

/// The regulatory retest interval, in months, of each environment class.
pub open spec fn env_to_retest_spec(env: Environment) -> int {
    match env {
        Environment::GalleyWshopWet => 6,
        Environment::DC => 12,
        Environment::Cabinets => 60,
        Environment::Cabins => 24,
        Environment::Cleaning => 6,
        Environment::PrivateApp => 36,
    }
}

/// The textual label of each environment class, as stored and as sent
/// in requests.
pub open spec fn env_label_chars(env: Environment) -> Seq<char> {
    match env {
        Environment::GalleyWshopWet => "GalleyWshopWet"@,
        Environment::DC => "DC"@,
        Environment::Cabinets => "Cabinets"@,
        Environment::Cabins => "Cabins"@,
        Environment::Cleaning => "Cleaning"@,
        Environment::PrivateApp => "PrivateApp"@,
    }
}

/// What parsing an environment label yields: exactly the six class
/// labels are accepted.
pub open spec fn parse_env_chars(s: Seq<char>) -> Option<Environment> {
    if s == "GalleyWshopWet"@ {
        Some(Environment::GalleyWshopWet)
    } else if s == "DC"@ {
        Some(Environment::DC)
    } else if s == "Cabinets"@ {
        Some(Environment::Cabinets)
    } else if s == "Cabins"@ {
        Some(Environment::Cabins)
    } else if s == "Cleaning"@ {
        Some(Environment::Cleaning)
    } else if s == "PrivateApp"@ {
        Some(Environment::PrivateApp)
    } else {
        None
    }
}

impl Environment {
    /// The class's textual label.
    pub fn label(&self) -> (r: String)
        ensures
            r@ == env_label_chars(*self),
    {
        match self {
            Environment::GalleyWshopWet => String::from_str("GalleyWshopWet"),
            Environment::DC => String::from_str("DC"),
            Environment::Cabinets => String::from_str("Cabinets"),
            Environment::Cabins => String::from_str("Cabins"),
            Environment::Cleaning => String::from_str("Cleaning"),
            Environment::PrivateApp => String::from_str("PrivateApp"),
        }
    }

    /// Recognizes one of the six class labels; anything else is `None`.
    pub fn from_label(s: &str) -> (r: Option<Environment>)
        ensures
            r == parse_env_chars(s@),
    {
        if str_eq(s, "GalleyWshopWet") {
            Some(Environment::GalleyWshopWet)
        } else if str_eq(s, "DC") {
            Some(Environment::DC)
        } else if str_eq(s, "Cabinets") {
            Some(Environment::Cabinets)
        } else if str_eq(s, "Cabins") {
            Some(Environment::Cabins)
        } else if str_eq(s, "Cleaning") {
            Some(Environment::Cleaning)
        } else if str_eq(s, "PrivateApp") {
            Some(Environment::PrivateApp)
        } else {
            None
        }
    }
}

/// A class's label parses back to that class, and to no other.
pub proof fn lemma_env_label_roundtrip(env: Environment)
    ensures
        parse_env_chars(env_label_chars(env)) == Some(env),
{
    reveal_strlit("GalleyWshopWet");
    reveal_strlit("DC");
    reveal_strlit("Cabinets");
    reveal_strlit("Cabins");
    reveal_strlit("Cleaning");
    reveal_strlit("PrivateApp");
    assert("GalleyWshopWet"@.len() == 14);
    assert("DC"@.len() == 2);
    assert("Cabinets"@.len() == 8);
    assert("Cabins"@.len() == 6);
    assert("Cleaning"@.len() == 8);
    assert("PrivateApp"@.len() == 10);
    assert(("Cleaning"@)[1] == 'l');
    assert(("Cabinets"@)[1] == 'a');
    assert("Cleaning"@ != "Cabinets"@);
}

/// The retest date derived from a test date and an environment class.
pub open spec fn calc_retest_spec(date: Date, env: Environment) -> Date {
    add_months_spec(date, env_to_retest_spec(env))
}

/// Whether the derived retest date still fits the four-digit year range.
pub open spec fn retest_in_range(date: Date, env: Environment) -> bool {
    date.year as int * 12 + (date.month as int - 1) + env_to_retest_spec(env) <= 9999 * 12 + 11
}

/// One appliance safety-test record. `retest` is always derived from
/// `date` and `environment`, never supplied by a caller.
#[derive(Debug)]
pub struct Private {
    pub name: String,
    pub description: String,
    /// Insulation resistance in megaohms, as decimal text.
    pub ir: String,
    /// Resistance to earth in ohms, as decimal text.
    pub resistance_to_earth: String,
    pub voltage: i64,
    pub tested_by: String,
    pub tag_number: String,
    pub environment: Environment,
    pub date: Date,
    pub retest: Date,
}

/// The mathematical shadow of a record: every text field as a character
/// sequence, the voltage as an integer.
#[verifier::ext_equal]
pub struct RecordV {
    pub name: Seq<char>,
    pub description: Seq<char>,
    pub ir: Seq<char>,
    pub resistance_to_earth: Seq<char>,
    pub voltage: int,
    pub tested_by: Seq<char>,
    pub tag_number: Seq<char>,
    pub environment: Environment,
    pub date: Date,
    pub retest: Date,
}

impl View for Private {
    type V = RecordV;

    open spec fn view(&self) -> RecordV {
        RecordV {
            name: self.name@,
            description: self.description@,
            ir: self.ir@,
            resistance_to_earth: self.resistance_to_earth@,
            voltage: self.voltage as int,
            tested_by: self.tested_by@,
            tag_number: self.tag_number@,
            environment: self.environment,
            date: self.date,
            retest: self.retest,
        }
    }
}

/// A well-formed record: valid dates, a derived retest date, decimal
/// resistance fields, and a voltage in 64-bit range.
pub open spec fn record_wf(r: RecordV) -> bool {
    &&& date_valid(r.date)
    &&& date_valid(r.retest)
    &&& r.retest == calc_retest_spec(r.date, r.environment)
    &&& is_decimal_chars(r.ir)
    &&& is_decimal_chars(r.resistance_to_earth)
    &&& i64::MIN as int <= r.voltage <= i64::MAX as int
}

impl Clone for Private {
    fn clone(&self) -> (r: Self)
        ensures
            r == *self,
    {
        Private {
            name: self.name.clone(),
            description: self.description.clone(),
            ir: self.ir.clone(),
            resistance_to_earth: self.resistance_to_earth.clone(),
            voltage: self.voltage,
            tested_by: self.tested_by.clone(),
            tag_number: self.tag_number.clone(),
            environment: self.environment,
            date: self.date,
            retest: self.retest,
        }
    }
}

impl Private {
    pub open spec fn wf(&self) -> bool {
        record_wf(self@)
    }

    /// Builds a record from typed fields, deriving the retest date.
    pub fn new(
        name: String,
        description: String,
        ir: String,
        resistance_to_earth: String,
        voltage: i64,
        tested_by: String,
        tag_number: String,
        environment: Environment,
        date: Date,
    ) -> (r: Private)
        requires
            date_valid(date),
            retest_in_range(date, environment),
            is_decimal_chars(ir@),
            is_decimal_chars(resistance_to_earth@),
        ensures
            r@ == (RecordV {
                name: name@,
                description: description@,
                ir: ir@,
                resistance_to_earth: resistance_to_earth@,
                voltage: voltage as int,
                tested_by: tested_by@,
                tag_number: tag_number@,
                environment,
                date,
                retest: calc_retest_spec(date, environment),
            }),
            r.wf(),
    {
        let retest = Self::calc_retest(&date, &environment);
        Private {
            name,
            description,
            ir,
            resistance_to_earth,
            voltage,
            tested_by,
            tag_number,
            environment,
            date,
            retest,
        }
    }

    /// The record's natural key in storage.
    pub fn get_tag_number(&self) -> (r: String)
        ensures
            r@ == self.tag_number@,
    {
        self.tag_number.clone()
    }

    /// Parses a date in the canonical `YYYY-MM-DD` form.
    pub fn from_str(date: String) -> (r: Result<Date, DateFormatError>)
        ensures
            match r {
                Ok(d) => parse_date_chars(date@) == Some(d) && date_valid(d),
                Err(_) => parse_date_chars(date@) is None,
            },
    {
        parse_date(date.as_str())
    }

    /// Maps each environment class to its retest interval in months.
    pub fn env_to_retest(env: Environment) -> (r: u32)
        ensures
            r as int == env_to_retest_spec(env),
    {
        match env {
            Environment::GalleyWshopWet => 6,
            Environment::DC => 12,
            Environment::Cabinets => 60,
            Environment::Cabins => 24,
            Environment::Cleaning => 6,
            Environment::PrivateApp => 36,
        }
    }

    /// Adds the environment's retest interval to the test date, with
    /// end-of-month clamping.
    pub fn calc_retest(date: &Date, env: &Environment) -> (r: Date)
        requires
            date_valid(*date),
            retest_in_range(*date, *env),
        ensures
            r == calc_retest_spec(*date, *env),
            date_valid(r),
    {
        add_months(date, Self::env_to_retest(*env))
    }
}

/// The retest derivation is a pure function of its two inputs: any two
/// results computed from the same test date and environment are equal.
pub proof fn lemma_calc_retest_deterministic(date: Date, env: Environment, r1: Date, r2: Date)
    requires
        r1 == calc_retest_spec(date, env),
        r2 == calc_retest_spec(date, env),
    ensures
        r1 == r2,
{
}

} // verus!
