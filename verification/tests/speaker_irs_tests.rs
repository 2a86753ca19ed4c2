use hrtf_synth::hrtf_data::HrtfData;
use hrtf_synth::speaker_irs::{IrFileError, SpeakerIrSet, NUM_SPEAKERS, VERSION};

fn sample_set(ir_length: usize) -> SpeakerIrSet<u32> {
    let irs: Vec<u32> = (0..(NUM_SPEAKERS * 2 * ir_length) as u32).map(|i| i * 3 + 1).collect();
    SpeakerIrSet { irs, ir_length, sample_rate: 48000 }
}

#[test]
fn header_layout() {
    let set = sample_set(2);
    let bytes = set.to_bytes();
    assert_eq!(&bytes[0..4], b"HRIR");
    assert_eq!(u32::from_le_bytes(bytes[4..8].try_into().unwrap()), VERSION);
    assert_eq!(u32::from_le_bytes(bytes[8..12].try_into().unwrap()), 7);
    assert_eq!(u32::from_le_bytes(bytes[12..16].try_into().unwrap()), 2);
    assert_eq!(u32::from_le_bytes(bytes[16..20].try_into().unwrap()), 48000);
    assert_eq!(bytes.len(), 20 + 28 * 4);
    assert_eq!(u32::from_le_bytes(bytes[20..24].try_into().unwrap()), 1);
    assert_eq!(u32::from_le_bytes(bytes[24..28].try_into().unwrap()), 4);
}

#[test]
fn save_then_load_roundtrip() {
    let set = sample_set(5);
    let bytes = set.to_bytes();
    let back = SpeakerIrSet::from_bytes(&bytes).unwrap();
    assert_eq!(back.irs, set.irs);
    assert_eq!(back.ir_length, 5);
    assert_eq!(back.sample_rate, 48000);
}

#[test]
fn float_samples_roundtrip_through_bits() {
    let samples: Vec<f32> = (0..14).map(|i| (i as f32) * 0.25 - 1.5).collect();
    let set = SpeakerIrSet { irs: samples.iter().map(|x| x.to_bits()).collect(), ir_length: 1, sample_rate: 44100 };
    let back = SpeakerIrSet::from_bytes(&set.to_bytes()).unwrap();
    let floats: Vec<f32> = back.irs.iter().map(|b| f32::from_bits(*b)).collect();
    assert_eq!(floats, samples);
}

#[test]
fn ir_file_trailing_bytes_are_ignored() {
    let set = sample_set(1);
    let mut bytes = set.to_bytes();
    bytes.extend_from_slice(&[9, 9, 9]);
    let back = SpeakerIrSet::from_bytes(&bytes).unwrap();
    assert_eq!(back.irs, set.irs);
}

#[test]
fn too_small() {
    assert_eq!(SpeakerIrSet::from_bytes(&[0u8; 19]).err(), Some(IrFileError::TooSmall));
}

#[test]
fn ir_file_invalid_magic() {
    let mut bytes = sample_set(1).to_bytes();
    bytes[3] = b'X';
    assert_eq!(SpeakerIrSet::from_bytes(&bytes).err(), Some(IrFileError::InvalidMagic));
}

#[test]
fn ir_file_unsupported_version() {
    let mut bytes = sample_set(1).to_bytes();
    bytes[4] = 2;
    assert_eq!(SpeakerIrSet::from_bytes(&bytes).err(), Some(IrFileError::UnsupportedVersion(2)));
}

#[test]
fn wrong_speaker_count() {
    let mut bytes = sample_set(1).to_bytes();
    bytes[8] = 5;
    assert_eq!(SpeakerIrSet::from_bytes(&bytes).err(), Some(IrFileError::WrongSpeakerCount(5)));
}

#[test]
fn truncated_samples() {
    let bytes = sample_set(3).to_bytes();
    let short = &bytes[..bytes.len() - 1];
    assert_eq!(
        SpeakerIrSet::from_bytes(short).err(),
        Some(IrFileError::Truncated { expected: 20 + 42 * 4, actual: 20 + 42 * 4 - 1 })
    );
}

#[test]
fn gathers_speaker_irs_in_order() {
    let mut data = HrtfData::new(3, 2, 44100, 0u32);
    for d in 0..3 {
        data.set_ir(d, 0, vec![(d * 10) as u32, (d * 10 + 1) as u32]);
        data.set_ir(d, 1, vec![(d * 10 + 5) as u32, (d * 10 + 6) as u32]);
    }
    let set = SpeakerIrSet::from_hrtf_data(&data, &[2, 0, 1, 1, 0, 2, 2]);
    assert_eq!(set.ir_length, 2);
    assert_eq!(set.sample_rate, 44100);
    assert_eq!(set.irs.len(), 28);
    assert_eq!(&set.irs[0..4], &[20, 21, 25, 26]);
    assert_eq!(&set.irs[4..8], &[0, 1, 5, 6]);
    assert_eq!(&set.irs[24..28], &[20, 21, 25, 26]);
}
