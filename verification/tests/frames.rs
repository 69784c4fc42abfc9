use rpb3_lib::uart_command::{
    Command, CommandError, Reply, UartCommand, UartReply, COMMAND_MAGIC, FRAME_LEN, REPLY_MAGIC,
};

#[test]
fn magic_bytes() {
    assert_eq!(COMMAND_MAGIC, 0x42);
    assert_eq!(REPLY_MAGIC, 0x53);
    assert!(UartCommand::magic_match(0x42));
    assert!(!UartCommand::magic_match(0x53));
    assert!(UartReply::magic_match(0x53));
    assert!(!UartReply::magic_match(0x42));
}

#[test]
fn write_command_frame() {
    let c = UartCommand::new(Command::Write { size: 5, addr: 0x90000 });
    assert_eq!(
        c.byte_view(),
        vec![0x42, 0, 0, 0, 0, 0, 0, 0, 5, 0, 0, 0, 0x00, 0x00, 0x09, 0x00]
    );
    assert_eq!(c.byte_view().len(), FRAME_LEN);
}

#[test]
fn jump_command_frame() {
    let c = UartCommand::new(Command::Jump { addr: 0x1234_5678 });
    assert_eq!(
        c.byte_view(),
        vec![0x42, 0, 0, 0, 1, 0, 0, 0, 0x78, 0x56, 0x34, 0x12, 0, 0, 0, 0]
    );
}

#[test]
fn command_roundtrip() {
    for cmd in [
        Command::Write { size: 0, addr: 0 },
        Command::Write { size: u32::MAX, addr: 0x8000_0001 },
        Command::Jump { addr: 0x90000 },
        Command::Jump { addr: u32::MAX },
    ] {
        let c = UartCommand::new(cmd);
        let back = UartCommand::from_bytes(&c.byte_view()).unwrap();
        assert_eq!(back, c);
        assert_eq!(back.cmd, cmd);
    }
}

#[test]
fn command_decode_ignores_trailing_and_padding() {
    let mut bytes = UartCommand::new(Command::Jump { addr: 7 }).byte_view();
    bytes[1] = 0xAA;
    bytes[13] = 0xBB;
    bytes.push(0xCC);
    assert_eq!(UartCommand::from_bytes(&bytes).unwrap().cmd, Command::Jump { addr: 7 });
}

#[test]
fn command_decode_refuses_bad_frames() {
    let good = UartCommand::new(Command::Write { size: 1, addr: 2 }).byte_view();
    assert_eq!(UartCommand::from_bytes(&good[..15]), None);
    assert_eq!(UartCommand::from_bytes(&[]), None);
    let mut bad_magic = good.clone();
    bad_magic[0] = 0x53;
    assert_eq!(UartCommand::from_bytes(&bad_magic), None);
    let mut bad_tag = good.clone();
    bad_tag[4] = 2;
    assert_eq!(UartCommand::from_bytes(&bad_tag), None);
    let mut high_tag = good.clone();
    high_tag[7] = 1;
    assert_eq!(UartCommand::from_bytes(&high_tag), None);
}

#[test]
fn reply_frames() {
    let ok = UartReply::new(Reply::Write(Ok(())));
    assert_eq!(ok.byte_view(), vec![0x53, 0, 0, 0, 0, 0, 0, 0, 2, 0, 0, 0, 0, 0, 0, 0]);
    let over = UartReply::new(Reply::Write(Err(CommandError::OverwriteLoader { loader_end: 0x8_1234 })));
    assert_eq!(over.byte_view(), vec![0x53, 0, 0, 0, 0, 0, 0, 0, 1, 0, 0, 0, 0x34, 0x12, 0x08, 0]);
    let inside = UartReply::new(Reply::Jump(Err(CommandError::JumpInsideLoader { loader_end: 0x100 })));
    assert_eq!(inside.byte_view(), vec![0x53, 0, 0, 0, 1, 0, 0, 0, 0, 0, 0, 0, 0, 1, 0, 0]);
    let jump = UartReply::new(Reply::Jump(Ok(())));
    assert_eq!(jump.byte_view(), vec![0x53, 0, 0, 0, 1, 0, 0, 0, 2, 0, 0, 0, 0, 0, 0, 0]);
}

#[test]
fn reply_roundtrip() {
    for reply in [
        Reply::Write(Ok(())),
        Reply::Jump(Ok(())),
        Reply::Write(Err(CommandError::OverwriteLoader { loader_end: 0xFFFF_FFFF })),
        Reply::Write(Err(CommandError::JumpInsideLoader { loader_end: 3 })),
        Reply::Jump(Err(CommandError::JumpInsideLoader { loader_end: 0x8_0000 })),
        Reply::Jump(Err(CommandError::OverwriteLoader { loader_end: 0 })),
    ] {
        let r = UartReply::new(reply);
        let back = UartReply::from_bytes(&r.byte_view()).unwrap();
        assert_eq!(back, r);
        assert_eq!(back.reply, reply);
    }
}

#[test]
fn reply_decode_refuses_bad_frames() {
    let good = UartReply::new(Reply::Write(Ok(()))).byte_view();
    assert_eq!(UartReply::from_bytes(&good[..10]), None);
    let mut bad_magic = good.clone();
    bad_magic[0] = 0x42;
    assert_eq!(UartReply::from_bytes(&bad_magic), None);
    let mut bad_tag = good.clone();
    bad_tag[4] = 9;
    assert_eq!(UartReply::from_bytes(&bad_tag), None);
    let mut bad_code = good.clone();
    bad_code[8] = 3;
    assert_eq!(UartReply::from_bytes(&bad_code), None);
}
