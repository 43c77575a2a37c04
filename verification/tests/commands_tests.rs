use piccy_picky::commands::{parse_batch_prompt, parse_command, BatchPromptCommand, Command};

#[test]
fn decision_keys() {
    assert_eq!(parse_command(b'k', false), Command::Keep);
    assert_eq!(parse_command(b'K', false), Command::Keep);
    assert_eq!(parse_command(b'b', false), Command::Bin);
    assert_eq!(parse_command(b'B', false), Command::Bin);
}

#[test]
fn info_keys_distinguish_case() {
    assert_eq!(parse_command(b'i', false), Command::ImageInfo);
    assert_eq!(parse_command(b'I', false), Command::BatchInfo);
}

#[test]
fn side_channel_keys() {
    assert_eq!(parse_command(12, false), Command::Redraw);
    assert_eq!(parse_command(b' ', false), Command::Preview);
    assert_eq!(parse_command(b'l', false), Command::Preview);
    assert_eq!(parse_command(b'L', false), Command::Preview);
    assert_eq!(parse_command(b'q', false), Command::Quit);
    assert_eq!(parse_command(b'Q', false), Command::Quit);
}

#[test]
fn mode_toggle_needs_enabling() {
    assert_eq!(parse_command(b'm', true), Command::ModeToggle);
    assert_eq!(parse_command(b'M', true), Command::ModeToggle);
    assert_eq!(parse_command(b'm', false), Command::Invalid);
}

#[test]
fn unmapped_keys_are_invalid() {
    assert_eq!(parse_command(b'z', false), Command::Invalid);
    assert_eq!(parse_command(b'7', false), Command::Invalid);
    assert_eq!(parse_command(0, false), Command::Invalid);
}

#[test]
fn batch_prompt_keys() {
    assert_eq!(parse_batch_prompt(b'c'), BatchPromptCommand::Continue);
    assert_eq!(parse_batch_prompt(b'C'), BatchPromptCommand::Continue);
    assert_eq!(parse_batch_prompt(b'r'), BatchPromptCommand::Restart);
    assert_eq!(parse_batch_prompt(b'R'), BatchPromptCommand::Restart);
    assert_eq!(parse_batch_prompt(b'q'), BatchPromptCommand::Quit);
    assert_eq!(parse_batch_prompt(b'x'), BatchPromptCommand::Invalid);
}
