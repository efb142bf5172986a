use trirecover::carve::validation::Validation;
use trirecover::carve::validators::{
    BmpValidator, GifValidator, JpegValidator, MkvValidator, Mp4Validator, OoxmlValidator, PdfValidator,
    PngValidator, PsdValidator, RarValidator, RiffAviValidator, SevenZValidator, TextValidator, TiffValidator,
    Validator, ZipValidator,
};
use trirecover::types::FileKind;

const EBML_HEADER: &[u8] = &[0x1A, 0x45, 0xDF, 0xA3];
const SEGMENT_ID: &[u8] = &[0x18, 0x53, 0x80, 0x67];
const ZIP_LFH: &[u8] = &[0x50, 0x4B, 0x03, 0x04];
const MIN_PDF: usize = 64;
const PNG_SIG: &[u8] = &[0x89, 0x50, 0x4E, 0x47, 0x0D, 0x0A, 0x1A, 0x0A];
const RAR4_SIG: &[u8] = &[0x52, 0x61, 0x72, 0x21, 0x1A, 0x07, 0x00];
const SEVENZ_MAGIC: &[u8] = &[0x37, 0x7A, 0xBC, 0xAF, 0x27, 0x1C];
const EOCD_SIG: &[u8] = &[0x50, 0x4B, 0x05, 0x06];

fn png_crc(bytes: &[u8]) -> u32 {
    crc::Crc::<u32>::new(&crc::CRC_32_ISO_HDLC).checksum(bytes)
}

#[test]
fn validates_minimal_bmp() {
    let mut v = b"BM".to_vec();
    v.extend_from_slice(&100u32.to_le_bytes());
    v.extend_from_slice(&[0, 0, 0, 0]);
    v.extend_from_slice(&54u32.to_le_bytes());
    v.extend_from_slice(&40u32.to_le_bytes());
    v.extend_from_slice(&[0u8; 100 - 18]);
    let val = BmpValidator;
    match val.validate(&v) {
        Validation::Confirmed { length, .. } => assert_eq!(length, 100),
        other => panic!("{other:?}"),
    }
}

#[test]
fn bmp_rejects_bad_signature() {
    let v = vec![0u8; 64];
    assert!(matches!(BmpValidator.validate(&v), Validation::Rejected));
}

#[test]
fn validates_minimal_gif89a() {
    let mut v = b"GIF89a".to_vec();
    v.extend_from_slice(&[1, 0, 1, 0, 0, 0, 0]);
    v.push(0x3B);
    let val = GifValidator;
    match val.validate(&v) {
        Validation::Confirmed { length, .. } => assert_eq!(length as usize, v.len()),
        other => panic!("got {other:?}"),
    }
}

#[test]
fn rejects_bad_header() {
    let v = GifValidator;
    let buf = vec![0u8; 32];
    assert!(matches!(v.validate(&buf), Validation::Rejected));
}

fn minimal_jpeg() -> Vec<u8> {
    let mut v = vec![0xFF, 0xD8];
    v.extend_from_slice(&[0xFF, 0xE0, 0x00, 0x10]);
    v.extend_from_slice(b"JFIF\x00\x01\x01\x00\x00\x01\x00\x01\x00\x00");
    v.extend_from_slice(&[0xFF, 0xDB, 0x00, 0x04, 0x00, 0x00]);
    v.extend_from_slice(&[0xFF, 0xDA, 0x00, 0x04, 0x00, 0x00]);
    v.extend_from_slice(&[0x12, 0x34, 0xFF, 0x00, 0x56]);
    v.extend_from_slice(&[0xFF, 0xD9]);
    v
}

#[test]
fn validates_minimal_jpeg() {
    let v = JpegValidator;
    let buf = minimal_jpeg();
    match v.validate(&buf) {
        Validation::Confirmed { length, .. } => assert_eq!(length as usize, buf.len()),
        other => panic!("expected confirmed, got {other:?}"),
    }
}

#[test]
fn rejects_non_jpeg() {
    let v = JpegValidator;
    assert!(matches!(v.validate(b"hello world"), Validation::Rejected));
}

#[test]
fn needs_more_if_truncated() {
    let v = JpegValidator;
    let buf = [0xFF, 0xD8, 0xFF, 0xE0, 0x00];
    assert!(matches!(v.validate(&buf), Validation::NeedsMore));
}

fn vint_one_byte(value: u8) -> u8 {
    0x80 | (value & 0x7F)
}

#[test]
fn validates_minimal_mkv() {
    let mut v = Vec::new();
    v.extend_from_slice(EBML_HEADER);
    v.push(vint_one_byte(4));
    v.extend_from_slice(&[0, 0, 0, 0]);
    v.extend_from_slice(SEGMENT_ID);
    v.push(vint_one_byte(8));
    v.extend_from_slice(&[0u8; 8]);
    match MkvValidator.validate(&v) {
        Validation::Confirmed { length, .. } => assert_eq!(length as usize, v.len()),
        other => panic!("{other:?}"),
    }
}

#[test]
fn rejects_unknown_size_segment() {
    let mut v = Vec::new();
    v.extend_from_slice(EBML_HEADER);
    v.push(vint_one_byte(0));
    v.extend_from_slice(SEGMENT_ID);
    v.push(0xFF);
    assert!(matches!(MkvValidator.validate(&v), Validation::Rejected));
}

fn build_mp4(boxes: &[(&[u8; 4], &[u8])]) -> Vec<u8> {
    let mut v = Vec::new();
    for (typ, data) in boxes {
        let size = (8 + data.len()) as u32;
        v.extend_from_slice(&size.to_be_bytes());
        v.extend_from_slice(*typ);
        v.extend_from_slice(data);
    }
    v
}

#[test]
fn validates_simple_mp4() {
    let v = build_mp4(&[(b"ftyp", b"isom\x00\x00\x02\x00mp41"), (b"mdat", &[0u8; 32][..])]);
    match Mp4Validator.validate(&v) {
        Validation::Confirmed { length, .. } => assert_eq!(length as usize, v.len()),
        other => panic!("{other:?}"),
    }
}

#[test]
fn rejects_without_ftyp() {
    let v = build_mp4(&[(b"mdat", &[0u8; 16][..])]);
    assert!(matches!(Mp4Validator.validate(&v), Validation::Rejected));
}

fn build_lfh(name: &[u8]) -> Vec<u8> {
    let mut v = ZIP_LFH.to_vec();
    v.extend_from_slice(&[0x14, 0]);
    v.extend_from_slice(&[0, 0, 0, 0, 0, 0, 0, 0, 0, 0, 0, 0, 0, 0, 0, 0, 0, 0, 0, 0]);
    v.extend_from_slice(&(name.len() as u16).to_le_bytes());
    v.extend_from_slice(&[0, 0]);
    v.extend_from_slice(name);
    v
}

fn build_eocd() -> Vec<u8> {
    let mut v = vec![0x50, 0x4B, 0x05, 0x06];
    v.extend_from_slice(&[0, 0, 0, 0, 0, 0, 0, 0, 0, 0, 0, 0, 0, 0, 0, 0, 0, 0]);
    v
}

#[test]
fn detects_docx() {
    let mut v = build_lfh(b"[Content_Types].xml");
    v.extend_from_slice(b"...filler... word/document.xml ...filler...");
    v.extend_from_slice(&build_eocd());
    let (val, k) = OoxmlValidator.validate_with_kind(&v);
    assert!(matches!(val, Validation::Confirmed { .. }));
    assert_eq!(k, FileKind::Docx);
}

#[test]
fn rejects_plain_zip() {
    let mut v = build_lfh(b"foo.txt");
    v.extend_from_slice(&build_eocd());
    let (val, _) = OoxmlValidator.validate_with_kind(&v);
    assert!(matches!(val, Validation::Rejected));
}

#[test]
fn validates_minimal_pdf() {
    let mut v = b"%PDF-1.4\n".to_vec();
    v.extend_from_slice(&[b' '; MIN_PDF]);
    v.extend_from_slice(b"\nstartxref\n0\n%%EOF\n");
    match PdfValidator.validate(&v) {
        Validation::Confirmed { length, .. } => {
            assert!(length as usize >= b"%%EOF".len());
            assert!(length as usize <= v.len());
        }
        other => panic!("{other:?}"),
    }
}

#[test]
fn rejects_no_pdf_header() {
    let v = vec![0u8; 256];
    assert!(matches!(PdfValidator.validate(&v), Validation::Rejected));
}

fn minimal_png() -> Vec<u8> {
    let mut v: Vec<u8> = PNG_SIG.to_vec();
    v.extend_from_slice(&13u32.to_be_bytes());
    let mut type_and_data = Vec::with_capacity(17);
    type_and_data.extend_from_slice(b"IHDR");
    type_and_data.extend_from_slice(&[0, 0, 0, 1, 0, 0, 0, 1, 8, 0, 0, 0, 0]);
    v.extend_from_slice(&type_and_data);
    let crc = png_crc(&type_and_data);
    v.extend_from_slice(&crc.to_be_bytes());
    v.extend_from_slice(&0u32.to_be_bytes());
    let iend_td = b"IEND";
    v.extend_from_slice(iend_td);
    let crc = png_crc(iend_td);
    v.extend_from_slice(&crc.to_be_bytes());
    v
}

#[test]
fn validates_minimal_png() {
    let v = PngValidator;
    let b = minimal_png();
    match v.validate(&b) {
        Validation::Confirmed { length, .. } => assert_eq!(length as usize, b.len()),
        other => panic!("expected confirmed, got {other:?}"),
    }
}

#[test]
fn rejects_corrupt_ihdr_crc() {
    let v = PngValidator;
    let mut b = minimal_png();
    b[16] ^= 0xFF;
    assert!(matches!(v.validate(&b), Validation::Rejected));
}

#[test]
fn rejects_non_png() {
    let v = PngValidator;
    let buf = vec![0u8; 64];
    assert!(matches!(v.validate(&buf), Validation::Rejected));
}

#[test]
fn png_checksum_decides_with_given_crc() {
    // The IHDR checksum decides: the right one confirms, any other rejects.
    let b = minimal_png();
    let right = png_crc(&b[12..29]);
    assert!(matches!(PngValidator.validate_with_ihdr_crc(&b, right), Validation::Confirmed { .. }));
    assert!(matches!(PngValidator.validate_with_ihdr_crc(&b, right ^ 1), Validation::Rejected));
}

#[test]
fn psd_rejects_bad_magic() {
    let v = vec![0u8; 64];
    assert!(matches!(PsdValidator.validate(&v), Validation::Rejected));
}

#[test]
fn rejects_garbage() {
    let v = vec![0u8; 64];
    assert!(matches!(RarValidator.validate(&v), Validation::Rejected));
}

#[test]
fn needs_more_with_only_signature() {
    let mut v = RAR4_SIG.to_vec();
    v.extend_from_slice(&[0u8; 6]);
    assert!(matches!(RarValidator.validate(&v), Validation::NeedsMore));
}

#[test]
fn validates_small_avi() {
    let mut v = b"RIFF".to_vec();
    v.extend_from_slice(&100u32.to_le_bytes());
    v.extend_from_slice(b"AVI ");
    match RiffAviValidator.validate(&v) {
        Validation::Confirmed { length, .. } => assert_eq!(length, 108),
        other => panic!("{other:?}"),
    }
}

#[test]
fn rejects_wav() {
    let mut v = b"RIFF".to_vec();
    v.extend_from_slice(&100u32.to_le_bytes());
    v.extend_from_slice(b"WAVE");
    assert!(matches!(RiffAviValidator.validate(&v), Validation::Rejected));
}

#[test]
fn validates_minimal_7z() {
    let mut v = SEVENZ_MAGIC.to_vec();
    v.extend_from_slice(&[0, 4]);
    v.extend_from_slice(&[0, 0, 0, 0]);
    v.extend_from_slice(&100u64.to_le_bytes());
    v.extend_from_slice(&50u64.to_le_bytes());
    v.extend_from_slice(&[0, 0, 0, 0]);
    match SevenZValidator.validate(&v) {
        Validation::Confirmed { length, .. } => assert_eq!(length, 32 + 100 + 50),
        other => panic!("{other:?}"),
    }
}

#[test]
fn sevenz_rejects_bad_magic() {
    let v = vec![0u8; 32];
    assert!(matches!(SevenZValidator.validate(&v), Validation::Rejected));
}

#[test]
fn validates_simple_txt() {
    let v = TextValidator::new(FileKind::Txt);
    let mut buf = Vec::new();
    for _ in 0..32 {
        buf.extend_from_slice(b"Hello, world!\n");
    }
    match v.validate(&buf) {
        Validation::Confirmed { .. } => {}
        other => panic!("{other:?}"),
    }
}

#[test]
fn rejects_binary() {
    let v = TextValidator::new(FileKind::Txt);
    let buf = vec![0xFFu8; 1024];
    assert!(matches!(v.validate(&buf), Validation::Rejected));
}

#[test]
fn validates_csv() {
    let v = TextValidator::new(FileKind::Csv);
    let mut buf = String::new();
    for _ in 0..64 {
        buf.push_str("a,b,c,d,e\n");
    }
    match v.validate(buf.as_bytes()) {
        Validation::Confirmed { .. } => {}
        other => panic!("{other:?}"),
    }
}

#[test]
fn rejects_csv_without_delimiters() {
    let v = TextValidator::new(FileKind::Csv);
    let mut buf = Vec::new();
    for _ in 0..64 {
        buf.extend_from_slice(b"plain text line\n");
    }
    assert!(matches!(v.validate(&buf), Validation::Rejected));
}

#[test]
fn validates_utf8_txt() {
    let v = TextValidator::new(FileKind::Txt);
    let w = "Grüße aus München\n".repeat(20);
    assert_eq!(w.len(), 420);
    match v.validate(w.as_bytes()) {
        Validation::Confirmed { length, .. } => assert_eq!(length, 420),
        other => panic!("{other:?}"),
    }
}

#[test]
fn utf8_text_run_stops_at_malformed_sequence() {
    let v = TextValidator::new(FileKind::Txt);
    let mut w = "€ and ü and 𝄞 ok\n".repeat(20).into_bytes();
    let cut = w.len();
    // An overlong two-byte form and a lone continuation byte start no character.
    w.extend_from_slice(&[0xC0, 0x80, 0x80]);
    w.extend_from_slice(&[b'x'; 20]);
    match v.validate(&w) {
        Validation::Confirmed { length, .. } => assert_eq!(length as usize, cut),
        other => panic!("{other:?}"),
    }
}

#[test]
fn rejects_surrogate_encodings() {
    let v = TextValidator::new(FileKind::Txt);
    // ED A0 80 would encode a surrogate: not well-formed UTF-8.
    let w: Vec<u8> = [0xEDu8, 0xA0, 0x80].iter().cycle().take(300).copied().collect();
    assert!(matches!(v.validate(&w), Validation::Rejected));
}

fn build_tiff_le() -> Vec<u8> {
    let mut v = Vec::new();
    v.extend_from_slice(b"II");
    v.extend_from_slice(&42u16.to_le_bytes());
    v.extend_from_slice(&8u32.to_le_bytes());
    v.extend_from_slice(&1u16.to_le_bytes());
    v.extend_from_slice(&256u16.to_le_bytes());
    v.extend_from_slice(&3u16.to_le_bytes());
    v.extend_from_slice(&1u32.to_le_bytes());
    v.extend_from_slice(&[128, 0, 0, 0]);
    v.extend_from_slice(&0u32.to_le_bytes());
    v
}

#[test]
fn validates_simple_tiff() {
    let v = build_tiff_le();
    let r = TiffValidator.validate(&v);
    match r {
        Validation::Confirmed { length, .. } => assert!(length as usize <= v.len()),
        other => panic!("{other:?}"),
    }
}

#[test]
fn rejects_bad_endian_mark() {
    let v = vec![0u8; 32];
    assert!(matches!(TiffValidator.validate(&v), Validation::Rejected));
}

fn minimal_zip() -> Vec<u8> {
    let mut v = Vec::new();
    v.extend_from_slice(&[0x50, 0x4B, 0x03, 0x04]);
    v.extend_from_slice(&[0x14, 0]);
    v.extend_from_slice(&[0, 0]);
    v.extend_from_slice(&[0, 0]);
    v.extend_from_slice(&[0, 0, 0, 0]);
    v.extend_from_slice(&[0, 0, 0, 0]);
    v.extend_from_slice(&[0, 0, 0, 0]);
    v.extend_from_slice(&[0, 0, 0, 0]);
    v.extend_from_slice(&[1, 0]);
    v.extend_from_slice(&[0, 0]);
    v.push(b'a');
    v.extend_from_slice(EOCD_SIG);
    v.extend_from_slice(&[0, 0, 0, 0, 0, 0, 0, 0, 0, 0, 0, 0, 0, 0, 0, 0, 0, 0]);
    v
}

#[test]
fn validates_minimal_zip() {
    let v = minimal_zip();
    match ZipValidator.validate(&v) {
        Validation::Confirmed { length, .. } => assert_eq!(length as usize, v.len()),
        other => panic!("{other:?}"),
    }
}

#[test]
fn needs_more_without_eocd() {
    let mut v = minimal_zip();
    v.truncate(31);
    assert!(matches!(ZipValidator.validate(&v), Validation::NeedsMore));
}
