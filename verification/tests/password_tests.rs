use riskie::password::{
    after_prompt, ask_password_args, fill_placeholders, trim_trailing_newlines, zenity_args,
    PromptRun, PromptStep, PromptTool,
};

#[test]
fn placeholders_are_filled_everywhere() {
    assert_eq!(fill_placeholders("Enter passphrase for {}", "USB"), "Enter passphrase for USB");
    assert_eq!(fill_placeholders("{} and {}", "x"), "x and x");
    assert_eq!(fill_placeholders("{{}}", "x"), "{x}");
    assert_eq!(fill_placeholders("no marks", "x"), "no marks");
    assert_eq!(fill_placeholders("", "x"), "");
    assert_eq!(fill_placeholders("Contraseña de {}", "é"), "Contraseña de é");
}

#[test]
fn trailing_newlines_are_trimmed() {
    assert_eq!(trim_trailing_newlines("secret\n"), "secret");
    assert_eq!(trim_trailing_newlines("secret\n\n"), "secret");
    assert_eq!(trim_trailing_newlines("sec\nret"), "sec\nret");
    assert_eq!(trim_trailing_newlines("secret \r\n"), "secret \r");
    assert_eq!(trim_trailing_newlines("\n"), "");
    assert_eq!(trim_trailing_newlines(""), "");
}

fn finished(success: bool, out: &str) -> PromptRun {
    PromptRun::Finished { success, stdout: out.to_string() }
}

#[test]
fn prompt_flow() {
    assert_eq!(after_prompt(PromptTool::AskPassword, finished(true, "pw\n")), PromptStep::Answer(Some("pw".to_string())));
    assert_eq!(after_prompt(PromptTool::AskPassword, finished(false, "")), PromptStep::TryZenity);
    assert_eq!(after_prompt(PromptTool::AskPassword, PromptRun::Unavailable), PromptStep::TryZenity);
    assert_eq!(after_prompt(PromptTool::Zenity, finished(true, "pw2\n")), PromptStep::Answer(Some("pw2".to_string())));
    assert_eq!(after_prompt(PromptTool::Zenity, finished(false, "x")), PromptStep::Answer(None));
    assert_eq!(after_prompt(PromptTool::Zenity, PromptRun::Unavailable), PromptStep::Failed);
}

#[test]
fn prompt_arguments() {
    assert_eq!(
        ask_password_args("Enter passphrase for USB"),
        vec!["--icon=drive-removable-media-usb", "--keyname=riskie", "--accept-cached", "--timeout=1", "Enter passphrase for USB"]
    );
    assert_eq!(
        zenity_args("Enter passphrase for USB", "USB"),
        vec!["--entry", "--hide-text", "--icon=drive-removable-media-usb", "--text=Enter passphrase for USB", "--title=USB"]
    );
}
