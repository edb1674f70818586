use fractus_shamir::config::{Config, Defaults};
use fractus_shamir::formats::{InputFormat, OutputFormat, ShareData};
use fractus_shamir::gf256::GF256;
use fractus_shamir::params::{validate_sharing_params, validate_split, SplitParamsError};
use fractus_shamir::Share;

#[test]
fn extensions_of_output_formats() {
    assert_eq!(OutputFormat::Json.extension(), "json");
    assert_eq!(OutputFormat::Hex.extension(), "hex");
    assert_eq!(OutputFormat::Base64.extension(), "b64");
    assert_eq!(OutputFormat::Binary.extension(), "bin");
}

#[test]
fn detection_from_content() {
    assert_eq!(InputFormat::detect_from_content("{\"x\": 1}"), Ok(InputFormat::Json));
    assert_eq!(InputFormat::detect_from_content("  0a1B  \n"), Ok(InputFormat::Hex));
    assert_eq!(InputFormat::detect_from_content("abc"), Ok(InputFormat::Json));
    assert_eq!(InputFormat::detect_from_content("AQID"), Ok(InputFormat::Base64));
    assert_eq!(InputFormat::detect_from_content("AQ ID\r\nAQ=="), Ok(InputFormat::Base64));
    assert_eq!(InputFormat::detect_from_content("AQI$"), Ok(InputFormat::Json));
    assert_eq!(InputFormat::detect_from_content("日本"), Ok(InputFormat::Json));
    assert!(InputFormat::detect_from_content("   \n\t ").is_err());
    assert!(InputFormat::detect_from_content("").is_err());
}

#[test]
fn base64_likeness() {
    assert!(InputFormat::is_likely_base64(b"QUJD"));
    assert!(InputFormat::is_likely_base64(b"QU JD\n"));
    assert!(!InputFormat::is_likely_base64(b"QUJ"));
    assert!(!InputFormat::is_likely_base64(b"QU-D"));
    assert_eq!(InputFormat::detect_from_trimmed(b"{}"), Ok(InputFormat::Json));
    assert_eq!(InputFormat::detect_from_trimmed(b""), Err("Empty content"));
}

#[test]
fn share_data_bytes() {
    let share = Share::new(GF256(4), vec![GF256(5), GF256(6)]);
    let data = ShareData::new(share, 2, 5, 3, false);
    assert_eq!(data.id, None);
    assert_eq!(data.threshold, None);
    assert!(data.created_at.is_none());
    assert_eq!(data.to_bytes(), vec![4, 5, 6]);
    let back = ShareData::from_bytes(&[4, 5, 6]).unwrap();
    assert_eq!(back.x, 4);
    assert_eq!(back.y, vec![5, 6]);
    assert!(ShareData::from_bytes(&[4]).is_err());
    let share = back.into_share();
    assert_eq!(share, Share::new(GF256(4), vec![GF256(5), GF256(6)]));
}

#[test]
fn share_data_metadata() {
    let share = Share::new(GF256(1), vec![GF256(9)]);
    let data = ShareData::new(share, 1, 5, 3, true);
    assert_eq!(data.id, Some(1));
    assert_eq!(data.threshold, Some(3));
    assert_eq!(data.total_shares, Some(5));
    assert!(data.created_at.is_some());
    assert!(data.description.is_none());
}

#[test]
fn sharing_parameters() {
    assert!(validate_sharing_params(3, 5).is_ok());
    assert!(validate_sharing_params(3, 3).is_ok());
    assert_eq!(validate_sharing_params(0, 5), Err("Threshold must be at least 1"));
    assert_eq!(
        validate_sharing_params(4, 3),
        Err("Number of shares must be at least the threshold")
    );
    assert_eq!(validate_split(5, 3, false, false, true), Ok(()));
    assert_eq!(validate_split(5, 0, false, false, false), Err(SplitParamsError::ZeroThreshold));
    assert_eq!(
        validate_split(2, 3, false, false, false),
        Err(SplitParamsError::TooFewShares { shares: 2, threshold: 3 })
    );
    assert_eq!(validate_split(5, 3, true, true, false), Err(SplitParamsError::ConflictingInputs));
}

#[test]
fn configuration_defaults() {
    let d = Defaults::default();
    assert_eq!((d.threshold, d.shares, d.format.as_str()), (3, 5, "json"));
    let c = Config::default();
    assert_eq!(c.defaults.shares, 5);
}

#[test]
fn share_data_text_encodings() {
    let data = ShareData::from_bytes(&[1, 0xab, 0x0f]).unwrap();
    assert_eq!(data.to_hex(), "01ab0f");
    assert_eq!(data.to_base64(), "AasP");
    let back = ShareData::from_hex("  01AB0f\n").unwrap();
    assert_eq!((back.x, back.y.clone()), (1, vec![0xab, 0x0f]));
    let back = ShareData::from_base64(" AasP ").unwrap();
    assert_eq!((back.x, back.y.clone()), (1, vec![0xab, 0x0f]));
    assert!(ShareData::from_hex("01a").is_err());
    assert!(ShareData::from_hex("zz00").is_err());
    assert!(ShareData::from_hex("01").is_err());
    assert!(ShareData::from_base64("!!!!").is_err());
}
