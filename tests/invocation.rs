use s3_copy_fanout::count::CountError;
use s3_copy_fanout::invocation::{plan_invocation, usage_message, Command, InvocationError};
use s3_copy_fanout::source::SourceError;

fn args(list: &[&str]) -> Vec<String> {
    list.iter().map(|a| a.to_string()).collect()
}

#[test]
fn wrong_argument_count_gives_usage() {
    assert!(matches!(plan_invocation(&args(&["prog"])), Ok(Command::Usage)));
    assert!(matches!(plan_invocation(&args(&["prog", "s3://b/k"])), Ok(Command::Usage)));
    assert!(matches!(plan_invocation(&args(&["prog", "s3://b/k", "1", "x"])), Ok(Command::Usage)));
    assert!(matches!(plan_invocation(&args(&[])), Ok(Command::Usage)));
}

#[test]
fn usage_line() {
    assert_eq!(usage_message("prog"), "Usage: prog <s3_uri> <object_number>");
}

#[test]
fn valid_arguments_give_job() {
    match plan_invocation(&args(&["prog", "s3://mybucket/images/pic.jpg", "4"])) {
        Ok(Command::Run(job)) => {
            assert_eq!(job.count, 4);
            assert_eq!(job.source.bucket, "mybucket");
            assert_eq!(job.source.prefix, "images");
            assert_eq!(job.source.object_name, "pic.jpg");
        }
        _ => panic!("expected a job"),
    }
}

#[test]
fn argument_errors() {
    assert!(matches!(
        plan_invocation(&args(&["prog", "nope", "4"])),
        Err(InvocationError::Source(SourceError::InvalidUri))
    ));
    assert!(matches!(
        plan_invocation(&args(&["prog", "s3://b/k", "four"])),
        Err(InvocationError::Count(CountError::InvalidDigit))
    ));
    assert!(matches!(
        plan_invocation(&args(&["prog", "mailto:a@b.c", "4"])),
        Err(InvocationError::Source(SourceError::MissingHost))
    ));
    assert!(matches!(
        plan_invocation(&args(&["prog", "mailto:a@b.c", ""])),
        Err(InvocationError::Count(CountError::Empty))
    ));
}
