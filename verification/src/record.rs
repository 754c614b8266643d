//! The record kept for each account, and the rule by which an update
//! replaces it.

use vstd::prelude::*;

verus! {

/// What a record is, as plain mathematics: the view of a [`Messenger`].
pub struct Record {
    /// The account that the record belongs to.
    pub owner: Seq<char>,
    /// The text of the account's latest update.
    pub message: Seq<char>,
    /// The sum of all amounts that the account has attached.
    pub accumulated: nat,
    /// The time of the account's latest update.
    pub updated_at: nat,
}

/// The stored record of one account.
#[derive(Debug, PartialEq, Eq)]
pub struct Messenger {
    /// The account that the record belongs to.
    pub owner_id: String,
    /// The message of the account's latest update.
    pub mess: String,
    /// The sum of all deposits that the account has attached.
    pub donate: u128,
    /// The time of the account's latest update.
    pub time: u64,
}

impl View for Messenger {
    type V = Record;

    open spec fn view(&self) -> Record {
        Record {
            owner: self.owner_id@,
            message: self.mess@,
            accumulated: self.donate as nat,
            updated_at: self.time as nat,
        }
    }
}

impl Clone for Messenger {
    fn clone(&self) -> (copy: Self)
        ensures
            copy == *self,
    {
        Messenger {
            owner_id: self.owner_id.clone(),
            mess: self.mess.clone(),
            donate: self.donate,
            time: self.time,
        }
    }
}

/// Why an update was turned down.
#[derive(Debug, Clone, Copy, PartialEq, Eq)]
pub enum ValidationError {
    /// The update carried an empty message.
    EmptyMessage,
}

impl ValidationError {
    /// The text shown to the caller.
    pub fn message(&self) -> (text: String)
        ensures
            text@ == "message must not be empty"@,
    {
        "message must not be empty".to_owned()
    }
}

/// The record that an update leaves behind: the new message and time, and the
/// attached amount on top of what `previous` had accumulated.
pub open spec fn updated_record(
    previous: Option<Record>,
    owner: Seq<char>,
    message: Seq<char>,
    amount: nat,
    now: nat,
) -> Record {
    Record {
        owner,
        message,
        accumulated: match previous {
            Some(record) => record.accumulated + amount,
            None => amount,
        },
        updated_at: now,
    }
}

impl Messenger {
    /// Validates one update and builds the record that it leaves for
    /// `owner_id`. `previous` is the record that the account has so far, if
    /// any; only its amount is carried over.
    pub fn updated(
        previous: Option<&Messenger>,
        owner_id: String,
        message: String,
        deposit: u128,
        now: u64,
    ) -> (outcome: Result<Messenger, ValidationError>)
        requires
            message@.len() > 0 && previous is Some ==> previous->0.donate + deposit <= u128::MAX,
        ensures
            message@.len() == 0 ==> outcome == Err::<Messenger, ValidationError>(
                ValidationError::EmptyMessage,
            ),
            message@.len() > 0 ==> outcome is Ok,
            message@.len() > 0 ==> outcome->Ok_0@ == updated_record(
                match previous {
                    Some(record) => Some(record@),
                    None => None,
                },
                owner_id@,
                message@,
                deposit as nat,
                now as nat,
            ),
    {
        if message.as_str().is_empty() {
            return Err(ValidationError::EmptyMessage);
        }
        let donate: u128 = match previous {
            Some(record) => record.donate + deposit,
            None => deposit,
        };
        Ok(Messenger { owner_id, mess: message, donate, time: now })
    }
}

} // verus!
