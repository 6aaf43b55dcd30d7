use an758x_stock2ubi::reply::Status;
use an758x_stock2ubi::upload::{
    form_field, parse_failure, read_failure, FlashLock, FlashOutcome, FormField, UploadForm,
};

#[test]
fn knows_the_fields_of_the_form() {
    assert_eq!(form_field(Some("bl2")), Some(FormField::Bl2));
    assert_eq!(form_field(Some("fip")), Some(FormField::Fip));
    assert_eq!(form_field(Some("BL2")), None);
    assert_eq!(form_field(Some("")), None);
    assert_eq!(form_field(None), None);
}

#[test]
fn hands_out_the_last_file_of_each_field() {
    let mut form = UploadForm::new();
    form.store(FormField::Fip, vec![1]);
    form.store(FormField::Bl2, vec![2]);
    form.store(FormField::Fip, vec![3, 4]);
    let files = form.finish().unwrap();
    assert_eq!(files.bl2, vec![2]);
    assert_eq!(files.fip_image, vec![3, 4]);
}

#[test]
fn says_which_file_is_missing() {
    let nothing = UploadForm::new().finish().unwrap_err();
    assert_eq!(nothing.status, Status::BadRequest);
    assert_eq!(nothing.message, "Select a BL2 file");

    let mut empty = UploadForm::new();
    empty.store(FormField::Bl2, vec![1]);
    empty.store(FormField::Bl2, vec![]);
    empty.store(FormField::Fip, vec![1]);
    assert_eq!(empty.finish().unwrap_err().message, "Select a BL2 file");

    let mut half = UploadForm::new();
    half.store(FormField::Bl2, vec![1]);
    let reply = half.finish().unwrap_err();
    assert_eq!(reply.status, Status::BadRequest);
    assert_eq!(reply.message, "Select a BL31 + U-Boot FIP file");
}

#[test]
fn says_why_the_form_was_not_read() {
    let parsing = parse_failure("no boundary");
    assert_eq!(parsing.status, Status::BadRequest);
    assert_eq!(parsing.message, "Parsing the upload failed: no boundary");
    let reading = read_failure("too large");
    assert_eq!(reading.status, Status::BadRequest);
    assert_eq!(reading.message, "Reading the uploaded file failed: too large");
}

#[test]
fn lets_one_flash_in_at_a_time() {
    let mut lock = FlashLock::new();
    lock.enter().unwrap();
    let second = lock.enter().unwrap_err();
    assert_eq!(second.status, Status::Conflict);
    assert_eq!(second.message, "A flash operation is already running");

    let (failed, reboot) = lock.leave(FlashOutcome::Failed("bad FIP".to_string()));
    assert_eq!((failed.status, failed.message.as_str()), (Status::BadRequest, "bad FIP"));
    assert!(!reboot);

    lock.enter().unwrap();
    let (aborted, reboot) = lock.leave(FlashOutcome::Aborted("panic".to_string()));
    assert_eq!(aborted.status, Status::InternalServerError);
    assert_eq!(aborted.message, "Flash task exited unexpectedly: panic");
    assert!(!reboot);

    lock.enter().unwrap();
    let (installed, reboot) = lock.leave(FlashOutcome::Installed("done".to_string()));
    assert_eq!((installed.status, installed.message.as_str()), (Status::Success, "done"));
    assert!(reboot);
    // The device is about to reboot.
    assert!(lock.enter().is_err());
    lock.reboot_failed();
    lock.enter().unwrap();
}
