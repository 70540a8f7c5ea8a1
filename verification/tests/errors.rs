use smis_assembler::errors::{
    AssemblerError, FileHandlerError, ImmediateParseError, LabelParseError, MnemonicParseError,
    OpcodeParseError, ParseError, RegisterParseError,
};

#[test]
fn assembler_error_from_parts() {
    assert_eq!(
        AssemblerError::from(FileHandlerError::ErrorFileWriteFailed),
        AssemblerError::FileHandlerError(FileHandlerError::ErrorFileWriteFailed)
    );
    let p = ParseError::LabelParseError(LabelParseError::ErrorMalformedLabel);
    assert_eq!(AssemblerError::from(p), AssemblerError::ParseError(p));
    assert_eq!(
        AssemblerError::from(MnemonicParseError::ErrorMissingMnemonic),
        AssemblerError::ParseError(ParseError::MnemonicParseError(MnemonicParseError::ErrorMissingMnemonic))
    );
}

#[test]
fn parse_error_from_parts() {
    assert_eq!(
        ParseError::from(MnemonicParseError::ErrorUnknownMnemonic),
        ParseError::MnemonicParseError(MnemonicParseError::ErrorUnknownMnemonic)
    );
    assert_eq!(
        ParseError::from(RegisterParseError::ErrorNonNumeric),
        ParseError::RegisterParseError(RegisterParseError::ErrorNonNumeric)
    );
    assert_eq!(
        ParseError::from(ImmediateParseError::ErrorNumberOutOfBounds),
        ParseError::ImmediateParseError(ImmediateParseError::ErrorNumberOutOfBounds)
    );
    assert_eq!(
        ParseError::from(LabelParseError::ErrorLabelNotFound),
        ParseError::LabelParseError(LabelParseError::ErrorLabelNotFound)
    );
    assert_eq!(
        ParseError::from(OpcodeParseError::ErrorUnknownOpcode),
        ParseError::OpcodeParseError(OpcodeParseError::ErrorUnknownOpcode)
    );
}

#[test]
fn io_error_is_open_failure() {
    let e = std::io::Error::new(std::io::ErrorKind::NotFound, "missing");
    assert_eq!(FileHandlerError::from(e), FileHandlerError::ErrorFileOpenFailed);
}
