//! The upload of the boot images: the form, the one flash at a time, and what the
//! browser is answered.
use vstd::prelude::*;

use crate::reply;
use crate::reply::{fail, Reply, Status};
use crate::text::same_text;

verus! {

// ---------------------------------------------------------------------------
// The form
// ---------------------------------------------------------------------------

/// A field of the form that holds a file.
#[derive(Debug, Clone, Copy, PartialEq, Eq, Structural)]
pub enum FormField {
    Bl2,
    Fip,
}

/// The field of that name, if the form has one.
pub open spec fn field_named(name: Option<Seq<char>>) -> Option<FormField> {
    match name {
        Some(value) => if value == "bl2"@ {
            Some(FormField::Bl2)
        } else if value == "fip"@ {
            Some(FormField::Fip)
        } else {
            None
        },
        None => None,
    }
}

/// Finds the field of that name. The others are passed over unread.
pub fn form_field(name: Option<&str>) -> (field: Option<FormField>)
    ensures
        field == field_named(
            match name {
                Some(value) => Some(value@),
                None => None,
            },
        ),
{
    match name {
        Some(value) => if same_text(value, "bl2") {
            Some(FormField::Bl2)
        } else if same_text(value, "fip") {
            Some(FormField::Fip)
        } else {
            None
        },
        None => None,
    }
}

/// The files of a form, so far.
#[derive(Debug)]
pub struct UploadForm {
    bl2: Option<Vec<u8>>,
    fip_image: Option<Vec<u8>>,
}

/// The files of a form, so far, as sequences of bytes.
pub struct FormModel {
    pub bl2: Option<Seq<u8>>,
    pub fip_image: Option<Seq<u8>>,
}

impl FormModel {
    /// The form with a file in a field, in place of one that was there.
    pub open spec fn with(self, field: FormField, data: Seq<u8>) -> FormModel {
        match field {
            FormField::Bl2 => FormModel { bl2: Some(data), ..self },
            FormField::Fip => FormModel { fip_image: Some(data), ..self },
        }
    }
}

spec fn file(data: Option<Vec<u8>>) -> Option<Seq<u8>> {
    match data {
        Some(bytes) => Some(bytes@),
        None => None,
    }
}

impl View for UploadForm {
    type V = FormModel;

    closed spec fn view(&self) -> FormModel {
        FormModel { bl2: file(self.bl2), fip_image: file(self.fip_image) }
    }
}

/// The two files of a form.
#[derive(Debug)]
pub struct UploadedFiles {
    pub bl2: Vec<u8>,
    pub fip_image: Vec<u8>,
}

/// A file was chosen, and it is not empty.
pub open spec fn chosen(data: Option<Seq<u8>>) -> bool {
    data matches Some(bytes) && bytes.len() > 0
}

impl UploadForm {
    /// A form without files.
    pub fn new() -> (form: Self)
        ensures
            form@ == (FormModel { bl2: None, fip_image: None }),
    {
        UploadForm { bl2: None, fip_image: None }
    }

    /// Takes the file of a field.
    pub fn store(&mut self, field: FormField, data: Vec<u8>)
        ensures
            final(self)@ == old(self)@.with(field, data@),
    {
        match field {
            FormField::Bl2 => {
                self.bl2 = Some(data);
            },
            FormField::Fip => {
                self.fip_image = Some(data);
            },
        }
    }

    /// Hands the two files out, or says which is missing.
    pub fn finish(self) -> (result: Result<UploadedFiles, Reply>)
        ensures
            match result {
                Ok(files) => {
                    &&& chosen(self@.bl2)
                    &&& chosen(self@.fip_image)
                    &&& self@.bl2 == Some(files.bl2@)
                    &&& self@.fip_image == Some(files.fip_image@)
                },
                Err(reply) => {
                    &&& reply@.status == Status::BadRequest
                    &&& if !chosen(self@.bl2) {
                        reply@.message == "Select a BL2 file"@
                    } else {
                        &&& !chosen(self@.fip_image)
                        &&& reply@.message == "Select a BL31 + U-Boot FIP file"@
                    }
                },
            },
    {
        let bl2 = match self.bl2 {
            Some(data) if data.len() > 0 => data,
            _ => {
                return Err(
                    Reply {
                        status: Status::BadRequest,
                        message: "Select a BL2 file".to_string(),
                    },
                );
            },
        };
        let fip_image = match self.fip_image {
            Some(data) if data.len() > 0 => data,
            _ => {
                return Err(
                    Reply {
                        status: Status::BadRequest,
                        message: "Select a BL31 + U-Boot FIP file".to_string(),
                    },
                );
            },
        };
        Ok(UploadedFiles { bl2, fip_image })
    }
}

/// Says that the form could not be read.
pub fn parse_failure(error: &str) -> (reply: Reply)
    ensures
        reply@ == reply::failed(Status::BadRequest, "Parsing the upload failed: "@, error@),
{
    fail(Status::BadRequest, "Parsing the upload failed: ", error)
}

/// Says that a file of the form could not be read.
pub fn read_failure(error: &str) -> (reply: Reply)
    ensures
        reply@ == reply::failed(Status::BadRequest, "Reading the uploaded file failed: "@, error@),
{
    fail(Status::BadRequest, "Reading the uploaded file failed: ", error)
}

// ---------------------------------------------------------------------------
// One flash at a time
// ---------------------------------------------------------------------------

/// What a flash came to.
#[derive(Debug)]
pub enum FlashOutcome {
    /// It succeeded, with this report.
    Installed(String),
    /// It failed, for this reason.
    Failed(String),
    /// Its task ended without a result, for this reason.
    Aborted(String),
}

/// Lets one flash in at a time.
#[derive(Debug)]
pub struct FlashLock {
    busy: bool,
}

impl View for FlashLock {
    type V = bool;

    /// The lock is closed: a flash is under way, or has succeeded and the reboot
    /// is due.
    closed spec fn view(&self) -> bool {
        self.busy
    }
}

/// What the browser is answered of a flash.
pub open spec fn outcome_reply(outcome: FlashOutcome) -> reply::ReplyModel {
    match outcome {
        FlashOutcome::Installed(report) => reply::ReplyModel {
            status: Status::Success,
            message: report@,
        },
        FlashOutcome::Failed(reason) => reply::ReplyModel {
            status: Status::BadRequest,
            message: reason@,
        },
        FlashOutcome::Aborted(reason) => reply::failed(
            Status::InternalServerError,
            "Flash task exited unexpectedly: "@,
            reason@,
        ),
    }
}

/// What happens to the lock.
pub enum LockEvent {
    /// A flash asks to be let in.
    Enter,
    /// A flash is over.
    Leave { installed: bool },
    /// The reboot after a flash that succeeded has failed.
    RebootFailed,
}

/// Whether the lock is closed after an event.
pub open spec fn closed_after(closed: bool, event: LockEvent) -> bool {
    match event {
        LockEvent::Enter => true,
        LockEvent::Leave { installed } => closed && installed,
        LockEvent::RebootFailed => false,
    }
}

/// A lock, the flashes that are under way, and the reboots that are due.
pub struct LockModel {
    pub closed: bool,
    pub running: nat,
    pub reboots: nat,
}

impl LockModel {
    /// The event can happen: only a flash that is under way can be over, and only
    /// a reboot that is due can fail.
    pub open spec fn possible(self, event: LockEvent) -> bool {
        match event {
            LockEvent::Enter => true,
            LockEvent::Leave { .. } => self.running > 0,
            LockEvent::RebootFailed => self.reboots > 0,
        }
    }

    /// The lock after an event: a flash is let in where it was open.
    pub open spec fn after(self, event: LockEvent) -> LockModel {
        LockModel {
            closed: closed_after(self.closed, event),
            running: match event {
                LockEvent::Enter => if self.closed {
                    self.running
                } else {
                    self.running + 1
                },
                LockEvent::Leave { .. } => (self.running - 1) as nat,
                LockEvent::RebootFailed => self.running,
            },
            reboots: match event {
                LockEvent::Enter => self.reboots,
                LockEvent::Leave { installed } => if installed {
                    self.reboots + 1
                } else {
                    self.reboots
                },
                LockEvent::RebootFailed => (self.reboots - 1) as nat,
            },
        }
    }

    /// The lock after the first `n` events.
    pub open spec fn after_all(self, events: Seq<LockEvent>, n: nat) -> LockModel
        decreases n,
    {
        if n == 0 {
            self
        } else {
            self.after_all(events, (n - 1) as nat).after(events[n - 1])
        }
    }
}

/// However flashes come and go, no two are under way at once, none is while a
/// reboot is due, and the lock is closed as long as one is or one is due.
pub proof fn law_one_flash_at_a_time(events: Seq<LockEvent>, n: nat)
    requires
        n <= events.len(),
        forall|i: nat|
            i < n ==> (#[trigger] LockModel { closed: false, running: 0, reboots: 0 }.after_all(
                events,
                i,
            )).possible(events[i as int]),
    ensures
        ({
            let lock = LockModel { closed: false, running: 0, reboots: 0 }.after_all(events, n);
            &&& lock.running + lock.reboots <= 1
            &&& lock.running + lock.reboots == 1 ==> lock.closed
        }),
    decreases n,
{
    if n > 0 {
        let before = (n - 1) as nat;
        law_one_flash_at_a_time(events, before);
        assert(LockModel { closed: false, running: 0, reboots: 0 }.after_all(events, before).possible(
            events[before as int],
        ));
    }
}

impl FlashLock {
    /// A lock that is open.
    pub fn new() -> (lock: Self)
        ensures
            !lock@,
    {
        FlashLock { busy: false }
    }

    /// Lets a flash in, unless one is under way.
    pub fn enter(&mut self) -> (result: Result<(), Reply>)
        ensures
            final(self)@ == closed_after(old(self)@, LockEvent::Enter),
            match result {
                Ok(()) => !old(self)@,
                Err(reply) => {
                    &&& old(self)@
                    &&& reply@.status == Status::Conflict
                    &&& reply@.message == "A flash operation is already running"@
                },
            },
    {
        if self.busy {
            return Err(
                Reply {
                    status: Status::Conflict,
                    message: "A flash operation is already running".to_string(),
                },
            );
        }
        self.busy = true;
        Ok(())
    }

    /// Takes what the flash came to, and says what the browser is answered and
    /// whether the device is to reboot. A flash that has not succeeded makes way
    /// for the next.
    pub fn leave(&mut self, outcome: FlashOutcome) -> (answer: (Reply, bool))
        ensures
            answer.0@ == outcome_reply(outcome),
            answer.1 == (outcome is Installed),
            final(self)@ == closed_after(
                old(self)@,
                LockEvent::Leave { installed: outcome is Installed },
            ),
    {
        match outcome {
            FlashOutcome::Installed(report) => (
                Reply { status: Status::Success, message: report },
                true,
            ),
            FlashOutcome::Failed(reason) => {
                self.busy = false;
                (Reply { status: Status::BadRequest, message: reason }, false)
            },
            FlashOutcome::Aborted(reason) => {
                self.busy = false;
                (
                    fail(
                        Status::InternalServerError,
                        "Flash task exited unexpectedly: ",
                        reason.as_str(),
                    ),
                    false,
                )
            },
        }
    }

    /// Makes way for the next flash where the reboot has failed.
    pub fn reboot_failed(&mut self)
        ensures
            final(self)@ == closed_after(old(self)@, LockEvent::RebootFailed),
    {
        self.busy = false;
    }
}

// ---------------------------------------------------------------------------
// What a form and a flash come to
// ---------------------------------------------------------------------------

/// The fields `bl2` and `fip` hold the files, and no other does.
pub proof fn law_form_fields(name: Seq<char>)
    ensures
        field_named(Some("bl2"@)) == Some(FormField::Bl2),
        field_named(Some("fip"@)) == Some(FormField::Fip),
        name != "bl2"@ && name != "fip"@ ==> field_named(Some(name)) is None,
        field_named(None) is None,
{
    reveal_strlit("bl2");
    reveal_strlit("fip");
    assert("bl2"@[0] != "fip"@[0]);
}

/// A file goes into its own field, in place of what was there, and leaves the other
/// alone; a file is chosen where it holds something.
pub proof fn law_form_files(form: FormModel, data: Seq<u8>)
    ensures
        form.with(FormField::Bl2, data).bl2 == Some(data),
        form.with(FormField::Bl2, data).fip_image == form.fip_image,
        form.with(FormField::Fip, data).fip_image == Some(data),
        form.with(FormField::Fip, data).bl2 == form.bl2,
        chosen(Some(data)) <==> data.len() > 0,
        !chosen(None),
{
}

/// A flash that succeeded is answered with its report, one that failed with the
/// reason, and one that ended without a result with that.
pub proof fn law_outcomes(text: String)
    ensures
        outcome_reply(FlashOutcome::Installed(text)).status == Status::Success,
        outcome_reply(FlashOutcome::Installed(text)).message == text@,
        outcome_reply(FlashOutcome::Failed(text)).status == Status::BadRequest,
        outcome_reply(FlashOutcome::Failed(text)).message == text@,
        outcome_reply(FlashOutcome::Aborted(text)).status == Status::InternalServerError,
        outcome_reply(FlashOutcome::Aborted(text)).message
            == "Flash task exited unexpectedly: "@ + text@,
{
}

/// The lock closes when a flash is let in, stays closed after one that succeeded,
/// and opens after one that did not and after a reboot that failed.
pub proof fn law_lock(closed: bool)
    ensures
        closed_after(closed, LockEvent::Enter),
        closed_after(closed, LockEvent::Leave { installed: true }) == closed,
        !closed_after(closed, LockEvent::Leave { installed: false }),
        !closed_after(closed, LockEvent::RebootFailed),
{
}

} // verus!
