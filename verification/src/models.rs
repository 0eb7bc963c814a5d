//! The record kept for each OTP secret in the codex.
use crate::clock::seconds_since_epoch;
use vstd::prelude::*;

verus! {

/// The number of OTP digits a record has when none is given.
pub fn default_digits() -> (d: u8)
    ensures
        d == 6,
{
    6
}

/// The OTP period, in seconds, a record has when none is given.
pub fn default_period() -> (p: u32)
    ensures
        p == 30,
{
    30
}

/// One entry of the codex: an alias and its (possibly encrypted) secret.
#[derive(Debug)]
pub struct Record {
    pub alias: String,
    pub secret: String,
    pub is_unencrypted: bool,
    pub algorithm: String,
    pub digits: u8,
    pub period: u32,
    pub created_at: u64,
}

/// The mathematical value of a [`Record`]: its strings as character sequences.
pub struct RecordView {
    pub alias: Seq<char>,
    pub secret: Seq<char>,
    pub is_unencrypted: bool,
    pub algorithm: Seq<char>,
    pub digits: u8,
    pub period: u32,
    pub created_at: u64,
}

impl View for Record {
    type V = RecordView;

    open spec fn view(&self) -> RecordView {
        RecordView {
            alias: self.alias@,
            secret: self.secret@,
            is_unencrypted: self.is_unencrypted,
            algorithm: self.algorithm@,
            digits: self.digits,
            period: self.period,
            created_at: self.created_at,
        }
    }
}

/// The values of a sequence of records.
pub open spec fn views(rs: Seq<Record>) -> Seq<RecordView> {
    rs.map_values(|r: Record| r@)
}

impl Record {
    /// A record for `alias` and `secret` with the default OTP settings
    /// (SHA-1, 6 digits, 30 seconds), created at `created_at` (Unix seconds).
    pub fn new_at(alias: String, secret: String, is_unencrypted: bool, created_at: u64) -> (r: Self)
        ensures
            r.alias@ == alias@,
            r.secret@ == secret@,
            r.is_unencrypted == is_unencrypted,
            r.algorithm@ == "sha1"@,
            r.digits == 6,
            r.period == 30,
            r.created_at == created_at,
    {
        Record {
            alias,
            secret,
            is_unencrypted,
            algorithm: "sha1".to_owned(),
            digits: default_digits(),
            period: default_period(),
            created_at,
        }
    }

    /// A record for `alias` and `secret` with the default OTP settings,
    /// created now: `new_at` with the clock's reading, whatever it is. A clock
    /// set before 1970 gives the creation time 0: the library's functions do
    /// not panic.
    pub fn new(alias: String, secret: String, is_unencrypted: bool) -> (r: Self)
        ensures
            r.alias@ == alias@,
            r.secret@ == secret@,
            r.is_unencrypted == is_unencrypted,
            r.algorithm@ == "sha1"@,
            r.digits == 6,
            r.period == 30,
    {
        let created_at = match seconds_since_epoch() {
            Some(t) => t,
            None => 0,
        };
        Self::new_at(alias, secret, is_unencrypted, created_at)
    }

    /// A copy of this record.
    pub fn duplicate(&self) -> (r: Self)
        ensures
            r@ == self@,
    {
        Record {
            alias: self.alias.clone(),
            secret: self.secret.clone(),
            is_unencrypted: self.is_unencrypted,
            algorithm: self.algorithm.clone(),
            digits: self.digits,
            period: self.period,
            created_at: self.created_at,
        }
    }
}

} // verus!
