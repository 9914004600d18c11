use solite::cli::jupyter::{background_process_message, dotenv_report, parameter_set_message};

#[test]
fn dotenv_report_with_no_keys() {
    assert_eq!(dotenv_report(".env", &vec![]), "No environment variables loaded from `.env`\n");
}

#[test]
fn dotenv_report_with_one_key() {
    assert_eq!(dotenv_report("conf/.env", &vec!["TOKEN".to_string()]), "Loaded `TOKEN` from `conf/.env`\n");
}

#[test]
fn dotenv_report_with_several_keys() {
    let keys = vec!["A".to_string(), "B".to_string(), "C_D".to_string()];
    assert_eq!(
        dotenv_report(".env", &keys),
        "Loaded 3 environment variables from `.env`:\n- `A`\n- `B`\n- `C_D`\n"
    );
}

#[test]
fn parameter_messages() {
    assert_eq!(parameter_set_message("name", None), "Set parameter: name");
    assert_eq!(parameter_set_message("name", Some("bad value")), "Failed to set parameter name: bad value");
}

#[test]
fn background_process_message_names_the_pid() {
    assert_eq!(background_process_message(4242), "Started background process with PID 4242");
    assert_eq!(background_process_message(0), "Started background process with PID 0");
}
