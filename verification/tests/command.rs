use magic_vlsi::line::take_line;
use magic_vlsi::Command;

#[test]
fn getcell_line() {
    assert_eq!(Command::getcell("sram").line(), "getcell sram\n");
}

#[test]
fn getcell_holds_the_name() {
    assert_eq!(Command::getcell("X"), Command::GetCell("X".to_string()));
}

#[test]
fn sideways_line() {
    assert_eq!(Command::sideways(), Command::Sideways);
    assert_eq!(Command::sideways().line(), "sideways\n");
}

#[test]
fn select_bbox_line() {
    assert_eq!(Command::select_bbox(), Command::SelectBbox);
    assert_eq!(Command::select_bbox().line(), "select bbox\n");
}

#[test]
fn getcell_name_is_not_validated() {
    assert_eq!(Command::getcell("").line(), "getcell \n");
    assert_eq!(Command::getcell("a b").line(), "getcell a b\n");
    assert_eq!(Command::getcell("caf\u{e9}").line(), "getcell caf\u{e9}\n");
    assert_eq!(Command::getcell("a\nb").line(), "getcell a\nb\n");
}

#[test]
fn command_reads_back_as_one_line() {
    let commands = [Command::getcell("sram"), Command::sideways(), Command::select_bbox()];
    let texts = ["getcell sram", "sideways", "select bbox"];
    for (command, text) in commands.iter().zip(texts.iter()) {
        let line = command.line();
        assert_eq!(take_line(&line), Some(*text));
    }
}
