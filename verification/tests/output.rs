use smis_assembler::errors::FileHandlerError;
use smis_assembler::output::{check_output_file_name, check_source_file_name, to_be_bytes_all};

#[test]
fn source_file_extension() {
    assert_eq!(check_source_file_name("prog.txt"), Ok(()));
    assert_eq!(check_source_file_name(".txt"), Ok(()));
    assert_eq!(check_source_file_name("prog.asm"), Err(FileHandlerError::ErrorInvalidExtension));
    assert_eq!(check_source_file_name("txt"), Err(FileHandlerError::ErrorInvalidExtension));
    assert_eq!(check_source_file_name("prog.TXT"), Err(FileHandlerError::ErrorInvalidExtension));
}

#[test]
fn output_file_extension() {
    assert_eq!(check_output_file_name("prog.bin"), Ok(()));
    assert_eq!(check_output_file_name(".bin"), Ok(()));
    assert_eq!(check_output_file_name("outbin"), Err(FileHandlerError::ErrorInvalidExtension));
    assert_eq!(check_output_file_name("prog.out"), Err(FileHandlerError::ErrorInvalidExtension));
    assert_eq!(check_output_file_name("bi"), Err(FileHandlerError::ErrorInvalidExtension));
}

#[test]
fn words_written_big_endian() {
    assert_eq!(to_be_bytes_all(&vec![]), Vec::<u8>::new());
    assert_eq!(
        to_be_bytes_all(&vec![0x0102_0304, 0xA0B0_C0D0]),
        vec![1, 2, 3, 4, 0xA0, 0xB0, 0xC0, 0xD0]
    );
}

#[test]
fn bytes_read_back_to_words() {
    let words = vec![0u32, 1, 0xFFFF_FFFF, 0x1234_5678, 0x8000_0001];
    let bytes = to_be_bytes_all(&words);
    assert_eq!(bytes.len(), 4 * words.len());
    let back: Vec<u32> = bytes
        .chunks(4)
        .map(|c| u32::from_be_bytes([c[0], c[1], c[2], c[3]]))
        .collect();
    assert_eq!(back, words);
}
