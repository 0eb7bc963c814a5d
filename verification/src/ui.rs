//! The live OTP table: what it shows and how far it moves the cursor back to
//! redraw itself.
use crate::models::Record;
use vstd::prelude::*;

verus! {

/// What the live table learns while it waits: a key was pressed, the input
/// closed (no terminal to read keys from), or a tick came with the seconds
/// now remaining.
#[derive(Debug, Clone, Copy, PartialEq, Eq, Structural)]
pub enum LiveEvent {
    KeyPressed,
    InputClosed,
    Tick { rem: u64 },
}

/// What the live table does next: leave, keep waiting, or redraw with the new
/// remaining seconds after moving the cursor up by the given lines on
/// standard output and standard error.
#[derive(Debug, Clone, Copy, PartialEq, Eq, Structural)]
pub enum LiveAction {
    Exit,
    Wait,
    Redraw { rem: u64, up_out: usize, up_err: usize },
}

/// The records of a live OTP table, with the password that unlocks them.
pub struct Table<'a> {
    filtered: &'a [&'a Record],
    pass: &'a String,
    is_single_alias: bool,
}

impl<'a> Table<'a> {
    /// The records shown.
    pub closed spec fn spec_filtered(&self) -> Seq<&'a Record> {
        self.filtered@
    }

    /// The password that unlocks them.
    pub closed spec fn spec_pass(&self) -> &'a String {
        self.pass
    }

    /// Whether the listing was a search for one alias.
    pub closed spec fn spec_is_single_alias(&self) -> bool {
        self.is_single_alias
    }

    /// A table of `filtered`, unlocked by `pass`.
    pub fn new(filtered: &'a [&'a Record], pass: &'a String, is_single_alias: bool) -> (t: Self)
        ensures
            t.spec_filtered() == filtered@,
            t.spec_pass() == pass,
            t.spec_is_single_alias() == is_single_alias,
    {
        Table { filtered, pass, is_single_alias }
    }

    /// The records shown.
    pub fn filtered(&self) -> (f: &'a [&'a Record])
        ensures
            f@ == self.spec_filtered(),
    {
        self.filtered
    }

    /// The password that unlocks them.
    pub fn pass(&self) -> (p: &'a String)
        ensures
            p == self.spec_pass(),
    {
        self.pass
    }

    /// Whether the listing was a search for one alias.
    pub fn is_single_alias(&self) -> (b: bool)
        ensures
            b == self.spec_is_single_alias(),
    {
        self.is_single_alias
    }

    /// Whether the table shows a single OTP rather than rows.
    pub fn shows_single(&self) -> (b: bool)
        ensures
            b == (self.spec_is_single_alias() && self.spec_filtered().len() == 1),
    {
        self.is_single_alias && self.filtered.len() == 1
    }

    /// How many lines to move the cursor up on standard output and on
    /// standard error before redrawing: the OTP line and the status line for
    /// a single OTP, the header, the rule and every row for a table.
    pub open spec fn spec_rewind(&self) -> (usize, usize) {
        if self.spec_is_single_alias() && self.spec_filtered().len() == 1 {
            (1usize, 1usize)
        } else {
            (if self.spec_filtered().len() + 2 <= usize::MAX {
                (self.spec_filtered().len() + 2) as usize
            } else {
                usize::MAX
            }, 0usize)
        }
    }

    /// How many lines to move the cursor up before redrawing.
    pub fn rewind(&self) -> (up: (usize, usize))
        ensures
            up == self.spec_rewind(),
    {
        if self.is_single_alias && self.filtered.len() == 1 {
            (1, 1)
        } else {
            (self.filtered.len().saturating_add(2), 0)
        }
    }

    /// The next step of the live table, which shows `shown_rem` seconds
    /// remaining: leave on a key or when the input closes, wait while the
    /// seconds are unchanged, redraw when they change.
    pub fn step(&self, shown_rem: u64, event: LiveEvent) -> (a: LiveAction)
        ensures
            match event {
                LiveEvent::KeyPressed => a == LiveAction::Exit,
                LiveEvent::InputClosed => a == LiveAction::Exit,
                LiveEvent::Tick { rem } => if rem == shown_rem {
                    a == LiveAction::Wait
                } else {
                    a == (LiveAction::Redraw {
                        rem,
                        up_out: self.spec_rewind().0,
                        up_err: self.spec_rewind().1,
                    })
                },
            },
    {
        match event {
            LiveEvent::KeyPressed => LiveAction::Exit,
            LiveEvent::InputClosed => LiveAction::Exit,
            LiveEvent::Tick { rem } => {
                if rem == shown_rem {
                    LiveAction::Wait
                } else {
                    let (up_out, up_err) = self.rewind();
                    LiveAction::Redraw { rem, up_out, up_err }
                }
            },
        }
    }
}

/// The live table moves the cursor back over exactly the lines it printed:
/// the lines that the OTP table (not quiet) prints for its records, on
/// standard output and on standard error.
pub proof fn lemma_rewind_covers_printed_lines<'a>(t: Table<'a>)
    requires
        t.spec_filtered().len() + 2 <= usize::MAX,
    ensures
        (t.spec_rewind().0 as nat, t.spec_rewind().1 as nat) == crate::cmd::spec_output_lines(
            t.spec_filtered().len(),
            t.spec_is_single_alias(),
            false,
        ),
{
}

} // verus!
