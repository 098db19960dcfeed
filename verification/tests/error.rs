use elvanto_cli::error::CliError;

#[test]
fn api_error_exits_1() {
    let err = CliError::Api { code: 250, message: "No search parameters provided.".into() };
    assert_eq!(err.exit_code(), 1u8);
    assert_eq!(err.message(), "Elvanto returned code 250: No search parameters provided.");
}

#[test]
fn network_error_exits_1() {
    let err = CliError::Network("connection timed out".into());
    assert_eq!(err.exit_code(), 1u8);
    assert_eq!(err.message(), "network: connection timed out");
}

#[test]
fn usage_error_exits_2() {
    let err = CliError::Usage("ELVANTO_API_KEY is not set".into());
    assert_eq!(err.exit_code(), 2u8);
}

#[test]
fn not_found_and_io_errors_exit_1() {
    let nf = CliError::NotFound("song s1".into());
    assert_eq!(nf.exit_code(), 1u8);
    assert_eq!(nf.message(), "not found: song s1");
    let io = CliError::Io("write error: broken pipe".into());
    assert_eq!(io.exit_code(), 1u8);
    assert_eq!(io.message(), "write error: broken pipe");
}

#[test]
fn api_error_message_with_negative_code() {
    let err = CliError::Api { code: -7, message: "odd".into() };
    assert_eq!(err.message(), "Elvanto returned code -7: odd");
}
