use vstd::prelude::*;

verus! {

/// A user decision for one slot.
#[derive(Clone, Copy, PartialEq, Eq, Structural, Debug)]
pub enum Decision {
    Keep,
    Bin,
}

/// One keypress, parsed. `Keep` and `Bin` are decisions; the rest are side
/// channels that never consume a slot.
#[derive(Clone, Copy, PartialEq, Eq, Structural, Debug)]
pub enum Command {
    Keep,
    Bin,
    Redraw,
    ImageInfo,
    BatchInfo,
    Preview,
    ModeToggle,
    Quit,
    Invalid,
}

/// One keypress at the end-of-batch prompt.
#[derive(Clone, Copy, PartialEq, Eq, Structural, Debug)]
pub enum BatchPromptCommand {
    Continue,
    Restart,
    Quit,
    Invalid,
}

/// ASCII lower-casing of one byte.
pub open spec fn spec_lower_byte(b: u8) -> u8 {
    if 0x41 <= b <= 0x5a {
        (b + 0x20) as u8
    } else {
        b
    }
}

/// The key map of the decision prompt. Ctrl+L redraws; capital `I` shows the
/// whole batch's scaling math while lowercase `i` shows the current image
/// alone, so those two are told apart before lower-casing; every other key is
/// case-insensitive. `m` toggles the scaling policy only when the caller
/// enabled the per-slot mode; otherwise it is invalid like any unmapped key.
pub open spec fn spec_parse_command(key: u8, mode_toggle_enabled: bool) -> Command {
    if key == 12 {  // Ctrl+L
        Command::Redraw
    } else if key == 0x49 {  // 'I'
        Command::BatchInfo
    } else if key == 0x69 {  // 'i'
        Command::ImageInfo
    } else {
        let k = spec_lower_byte(key);
        if k == 0x6b {  // 'k'
            Command::Keep
        } else if k == 0x62 {  // 'b'
            Command::Bin
        } else if k == 0x20 || k == 0x6c {  // space or 'l'
            Command::Preview
        } else if k == 0x71 {  // 'q'
            Command::Quit
        } else if k == 0x6d && mode_toggle_enabled {  // 'm'
            Command::ModeToggle
        } else {
            Command::Invalid
        }
    }
}

/// The key map of the end-of-batch prompt, case-insensitive.
pub open spec fn spec_parse_batch_prompt(key: u8) -> BatchPromptCommand {
    let k = spec_lower_byte(key);
    if k == 0x63 {  // 'c'
        BatchPromptCommand::Continue
    } else if k == 0x72 {  // 'r'
        BatchPromptCommand::Restart
    } else if k == 0x71 {  // 'q'
        BatchPromptCommand::Quit
    } else {
        BatchPromptCommand::Invalid
    }
}

pub fn lower_byte(b: u8) -> (r: u8)
    ensures
        r == spec_lower_byte(b),
{
    if 0x41 <= b && b <= 0x5a {
        b + 0x20
    } else {
        b
    }
}

/// Parse one raw keypress of the decision prompt.
pub fn parse_command(key: u8, mode_toggle_enabled: bool) -> (c: Command)
    ensures
        c == spec_parse_command(key, mode_toggle_enabled),
{
    if key == 12 {
        Command::Redraw
    } else if key == 0x49 {
        Command::BatchInfo
    } else if key == 0x69 {
        Command::ImageInfo
    } else {
        let k = lower_byte(key);
        if k == 0x6b {
            Command::Keep
        } else if k == 0x62 {
            Command::Bin
        } else if k == 0x20 || k == 0x6c {
            Command::Preview
        } else if k == 0x71 {
            Command::Quit
        } else if k == 0x6d && mode_toggle_enabled {
            Command::ModeToggle
        } else {
            Command::Invalid
        }
    }
}

/// Parse one raw keypress of the end-of-batch prompt.
pub fn parse_batch_prompt(key: u8) -> (c: BatchPromptCommand)
    ensures
        c == spec_parse_batch_prompt(key),
{
    let k = lower_byte(key);
    if k == 0x63 {
        BatchPromptCommand::Continue
    } else if k == 0x72 {
        BatchPromptCommand::Restart
    } else if k == 0x71 {
        BatchPromptCommand::Quit
    } else {
        BatchPromptCommand::Invalid
    }
}

} // verus!
