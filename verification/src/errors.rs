//! The errors an assembly can end with.
use vstd::prelude::*;
use vstd::std_specs::convert::FromSpecImpl;

verus! {

/// `std::io::Error`, carried through (its contents are not read).
#[verifier::external_type_specification]
#[verifier::external_body]
pub struct ExIoError(std::io::Error);

/// Any error of the assembler.
#[derive(Debug, Clone, Copy, PartialEq, Eq, Structural)]
pub enum AssemblerError {
    FileHandlerError(FileHandlerError),
    ParseError(ParseError),
}

/// An error in handling the source or output file.
#[derive(Debug, Clone, Copy, PartialEq, Eq, Structural)]
pub enum FileHandlerError {
    ErrorFileOpenFailed,
    ErrorFileCreateFailed,
    ErrorFileWriteFailed,
    ErrorInvalidFileContents,
    ErrorInvalidExtension,
    ErrorFileRewindFailed,
    ErrorFileReadFailed,
}

/// An error in parsing an instruction line.
#[derive(Debug, Clone, Copy, PartialEq, Eq, Structural)]
pub enum ParseError {
    MnemonicParseError(MnemonicParseError),
    RegisterParseError(RegisterParseError),
    ImmediateParseError(ImmediateParseError),
    LabelParseError(LabelParseError),
    OpcodeParseError(OpcodeParseError),
}

/// An error in reading the mnemonic of an instruction.
#[derive(Debug, Clone, Copy, PartialEq, Eq, Structural)]
pub enum MnemonicParseError {
    ErrorMissingMnemonic,
    ErrorUnknownMnemonic,
}

/// An error in turning an opcode into an instruction.
#[derive(Debug, Clone, Copy, PartialEq, Eq, Structural)]
pub enum OpcodeParseError {
    /// The instruction set has no instruction container for the opcode.
    ErrorUnknownOpcode,
}

/// An error in reading a register operand.
#[derive(Debug, Clone, Copy, PartialEq, Eq, Structural)]
pub enum RegisterParseError {
    ErrorMissingRegisterOperand,
    ErrorInvalidPrefix,
    ErrorNonNumeric,
    ErrorNumberOutOfBounds,
}

/// An error in reading an immediate operand.
#[derive(Debug, Clone, Copy, PartialEq, Eq, Structural)]
pub enum ImmediateParseError {
    ErrorMissingImmediateOperand,
    ErrorInvalidPrefix,
    ErrorNonNumeric,
    ErrorNumberOutOfBounds,
}

/// An error in reading or resolving a jump label.
#[derive(Debug, Clone, Copy, PartialEq, Eq, Structural)]
pub enum LabelParseError {
    ErrorLabelNotFound,
    ErrorMalformedLabel,
}

impl From<FileHandlerError> for AssemblerError {
    fn from(error: FileHandlerError) -> (r: Self) {
        AssemblerError::FileHandlerError(error)
    }
}

impl FromSpecImpl<FileHandlerError> for AssemblerError {
    open spec fn obeys_from_spec() -> bool {
        true
    }

    open spec fn from_spec(error: FileHandlerError) -> Self {
        AssemblerError::FileHandlerError(error)
    }
}

impl From<ParseError> for AssemblerError {
    fn from(error: ParseError) -> (r: Self) {
        AssemblerError::ParseError(error)
    }
}

impl FromSpecImpl<ParseError> for AssemblerError {
    open spec fn obeys_from_spec() -> bool {
        true
    }

    open spec fn from_spec(error: ParseError) -> Self {
        AssemblerError::ParseError(error)
    }
}

impl From<MnemonicParseError> for AssemblerError {
    fn from(error: MnemonicParseError) -> (r: Self) {
        AssemblerError::ParseError(ParseError::MnemonicParseError(error))
    }
}

impl FromSpecImpl<MnemonicParseError> for AssemblerError {
    open spec fn obeys_from_spec() -> bool {
        true
    }

    open spec fn from_spec(error: MnemonicParseError) -> Self {
        AssemblerError::ParseError(ParseError::MnemonicParseError(error))
    }
}

impl From<std::io::Error> for FileHandlerError {
    fn from(error: std::io::Error) -> (r: Self) {
        FileHandlerError::ErrorFileOpenFailed
    }
}

impl FromSpecImpl<std::io::Error> for FileHandlerError {
    open spec fn obeys_from_spec() -> bool {
        true
    }

    open spec fn from_spec(error: std::io::Error) -> Self {
        FileHandlerError::ErrorFileOpenFailed
    }
}

impl From<MnemonicParseError> for ParseError {
    fn from(error: MnemonicParseError) -> (r: Self) {
        ParseError::MnemonicParseError(error)
    }
}

impl FromSpecImpl<MnemonicParseError> for ParseError {
    open spec fn obeys_from_spec() -> bool {
        true
    }

    open spec fn from_spec(error: MnemonicParseError) -> Self {
        ParseError::MnemonicParseError(error)
    }
}

impl From<RegisterParseError> for ParseError {
    fn from(error: RegisterParseError) -> (r: Self) {
        ParseError::RegisterParseError(error)
    }
}

impl FromSpecImpl<RegisterParseError> for ParseError {
    open spec fn obeys_from_spec() -> bool {
        true
    }

    open spec fn from_spec(error: RegisterParseError) -> Self {
        ParseError::RegisterParseError(error)
    }
}

impl From<ImmediateParseError> for ParseError {
    fn from(error: ImmediateParseError) -> (r: Self) {
        ParseError::ImmediateParseError(error)
    }
}

impl FromSpecImpl<ImmediateParseError> for ParseError {
    open spec fn obeys_from_spec() -> bool {
        true
    }

    open spec fn from_spec(error: ImmediateParseError) -> Self {
        ParseError::ImmediateParseError(error)
    }
}

impl From<LabelParseError> for ParseError {
    fn from(error: LabelParseError) -> (r: Self) {
        ParseError::LabelParseError(error)
    }
}

impl FromSpecImpl<LabelParseError> for ParseError {
    open spec fn obeys_from_spec() -> bool {
        true
    }

    open spec fn from_spec(error: LabelParseError) -> Self {
        ParseError::LabelParseError(error)
    }
}

impl From<OpcodeParseError> for ParseError {
    fn from(error: OpcodeParseError) -> (r: Self) {
        ParseError::OpcodeParseError(error)
    }
}

impl FromSpecImpl<OpcodeParseError> for ParseError {
    open spec fn obeys_from_spec() -> bool {
        true
    }

    open spec fn from_spec(error: OpcodeParseError) -> Self {
        ParseError::OpcodeParseError(error)
    }
}

} // verus!
