//! The service-facing submission types and the validation that turns a
//! raw textual submission into a compliance record.
use vstd::prelude::*;

use crate::date::{parse_date, parse_date_chars};
use crate::model::{
    calc_retest_spec, parse_env_chars, retest_in_range, Environment, Private, RecordV,
};
use crate::text::{check_decimal, is_decimal_chars, parse_i64, parse_int_chars};

verus! {

/// A record submission, every field as the raw text the caller sent.
pub struct SubmitPrivateRequest {
    pub name: String,
    pub description: String,
    /// Insulation resistance in megaohms, decimal text.
    pub ir: String,
    /// Resistance to earth in ohms, decimal text.
    pub resistance_to_earth: String,
    /// Supply voltage, integer text.
    pub voltage: String,
    pub tested_by: String,
    pub tag_number: String,
    /// An environment class label.
    pub environment: String,
    /// The test date in `YYYY-MM-DD` form.
    pub date: String,
}

/// The identifier a successful submission answers with.
pub struct ApplianceIdentifier {
    pub tag_number: String,
}

/// A date carried as raw text, as the overdue query receives it.
pub struct DateIdentifier {
    pub date: String,
}

/// The service-level failures surfaced to callers.
#[derive(Clone, Copy, PartialEq, Eq, Structural, Debug)]
pub enum ApplianceError {
    ApplianceNotFound,
    ApplianceUpdateFailure,
    ApplianceCreationFailure,
    BadApplianceRequest,
}

/// What a submission parses to: a record with every typed field read
/// from its text and the retest date derived — or nothing, when any
/// field fails its parse or the derived retest date would leave the
/// canonical four-digit year range.
pub open spec fn request_parses(req: SubmitPrivateRequest) -> Option<RecordV> {
    if is_decimal_chars(req.ir@) && is_decimal_chars(req.resistance_to_earth@) && parse_int_chars(
        req.voltage@,
    ) is Some && parse_env_chars(req.environment@) is Some && parse_date_chars(req.date@) is Some
        && retest_in_range(parse_date_chars(req.date@)->0, parse_env_chars(req.environment@)->0) {
        Some(
            RecordV {
                name: req.name@,
                description: req.description@,
                ir: req.ir@,
                resistance_to_earth: req.resistance_to_earth@,
                voltage: parse_int_chars(req.voltage@)->0,
                tested_by: req.tested_by@,
                tag_number: req.tag_number@,
                environment: parse_env_chars(req.environment@)->0,
                date: parse_date_chars(req.date@)->0,
                retest: calc_retest_spec(
                    parse_date_chars(req.date@)->0,
                    parse_env_chars(req.environment@)->0,
                ),
            },
        )
    } else {
        None
    }
}

impl SubmitPrivateRequest {
    /// Validates the submission and constructs the record, deriving the
    /// retest date; rejects it exactly when a numeric, date or
    /// enum-label field fails its parse, or the derived retest date
    /// would not fit the canonical year range.
    pub fn to_private(&self) -> (r: Result<Private, ApplianceError>)
        ensures
            match r {
                Ok(p) => request_parses(*self) == Some(p@) && p.wf(),
                Err(e) => request_parses(*self) is None && e
                    == ApplianceError::BadApplianceRequest,
            },
    {
        let date = match parse_date(self.date.as_str()) {
            Ok(d) => d,
            Err(_) => {
                return Err(ApplianceError::BadApplianceRequest);
            },
        };
        let environment = match Environment::from_label(self.environment.as_str()) {
            Some(e) => e,
            None => {
                return Err(ApplianceError::BadApplianceRequest);
            },
        };
        let voltage = match parse_i64(self.voltage.as_str()) {
            Some(v) => v,
            None => {
                return Err(ApplianceError::BadApplianceRequest);
            },
        };
        if !check_decimal(self.ir.as_str()) {
            return Err(ApplianceError::BadApplianceRequest);
        }
        if !check_decimal(self.resistance_to_earth.as_str()) {
            return Err(ApplianceError::BadApplianceRequest);
        }
        let months = Private::env_to_retest(environment);
        if date.year * 12 + (date.month - 1) + months > 9999 * 12 + 11 {
            return Err(ApplianceError::BadApplianceRequest);
        }
        let p = Private::new(
            self.name.clone(),
            self.description.clone(),
            self.ir.clone(),
            self.resistance_to_earth.clone(),
            voltage,
            self.tested_by.clone(),
            self.tag_number.clone(),
            environment,
            date,
        );
        proof {
            assert(request_parses(*self)->Some_0 =~= p@);
        }
        Ok(p)
    }
}

} // verus!
