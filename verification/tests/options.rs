use kompass::model::OutputFormat;
use kompass::options::{check_options, AnalysisOptions};

fn options(tests: bool, all: bool, compact: bool, format: OutputFormat) -> AnalysisOptions {
    AnalysisOptions {
        tests,
        all,
        compact,
        format,
    }
}

#[test]
fn tests_and_all_are_mutually_exclusive() {
    let refusal = check_options(options(true, true, false, OutputFormat::Text)).unwrap_err();
    assert!(refusal.contains("cannot be used with"));
    assert!(check_options(options(true, false, false, OutputFormat::Text)).is_ok());
    assert!(check_options(options(false, true, false, OutputFormat::Text)).is_ok());
}

#[test]
fn compact_output_is_json() {
    assert_eq!(
        check_options(options(false, false, true, OutputFormat::Text)),
        Err("--compact requires --format json".to_owned())
    );
    assert_eq!(
        check_options(options(false, false, true, OutputFormat::Json)),
        Ok(())
    );
}
