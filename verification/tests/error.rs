use hvm_bench::error::{Error, Field};

#[test]
fn every_error_has_its_message() {
    let all = [
        (Error::VcsQueryFailed, "ancestry query failed"),
        (Error::VcsCheckoutFailed, "checkout failed"),
        (Error::BuildFailed, "build failed"),
        (Error::CompileFailed, "compilation failed"),
        (Error::ProcessTimedOut, "process timed out"),
        (Error::ProcessNonZeroExit("boom".to_owned()), "process exited with a non-zero code"),
        (Error::MissingField(Field::Time), "missing time in hvmc output"),
        (Error::MissingField(Field::Rwts), "missing rwts in hvmc output"),
        (Error::MalformedField(Field::Time), "invalid time in hvmc output"),
        (Error::MalformedField(Field::Rwts), "invalid rwts in hvmc output"),
        (Error::InvalidModeEncoding, "invalid mode"),
        (Error::InvalidDatasetFormat, "invalid csv"),
    ];
    for (error, message) in all {
        assert_eq!(error.message(), message);
    }
}
