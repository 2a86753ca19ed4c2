use hrtf_synth::model::{read_bool, read_u32, HrtfModel, ModelError};

struct Builder {
    bytes: Vec<u8>,
    next: u32,
}

impl Builder {
    fn new() -> Self {
        Builder { bytes: Vec::new(), next: 1000 }
    }
    fn word(&mut self, w: u32) {
        self.bytes.extend_from_slice(&w.to_le_bytes());
    }
    /// Appends `n` distinct words and returns them.
    fn words(&mut self, n: usize) -> Vec<u32> {
        let mut v = Vec::new();
        for _ in 0..n {
            let w = self.next;
            self.next += 1;
            self.word(w);
            v.push(w);
        }
        v
    }
}

/// A model with `n_dirs` directions, two ears, `n_freq` bins and `n_pca`
/// components; the first record has input normalisation.
fn model_file(n_dirs: u32, n_freq: u32, n_pca: u32) -> (Vec<u8>, Vec<Vec<Vec<u32>>>) {
    let mut b = Builder::new();
    b.bytes.extend_from_slice(b"HRTF");
    b.word(1);
    b.word(n_dirs);
    b.word(2);
    b.word(n_freq);
    b.word(n_pca);
    let mut records = Vec::new();
    for d in 0..n_dirs {
        let mut dir = Vec::new();
        for ch in 0..2 {
            let mut rec = Vec::new();
            rec.extend(b.words(160 + 20 + 240 + 12));
            let norm = d == 0 && ch == 0;
            b.bytes.push(if norm { 7 } else { 0 });
            if norm {
                rec.extend(b.words(16));
            }
            rec.extend(b.words((2 * n_pca + 2 + n_freq * n_pca + n_freq) as usize));
            dir.push(rec);
        }
        records.push(dir);
    }
    // positions
    for d in 0..n_dirs {
        b.word(d * 10);
        b.word(d * 10 + 1);
        b.word(d * 10 + 2);
    }
    // ITD table with 2 entries
    b.word(2);
    b.word(500);
    b.word(501);
    b.word(600);
    b.word(601);
    b.word(602);
    b.word(610);
    b.word(611);
    b.word(612);
    b.word(0x4168_0000); // 14.5
    b.word(0x419c_0000); // 19.5
    (b.bytes, records)
}

#[test]
fn read_u32_little_endian() {
    let data = [0x78u8, 0x56, 0x34, 0x12, 0xff];
    let mut pos = 0usize;
    assert_eq!(read_u32(&data, &mut pos), Ok(0x1234_5678));
    assert_eq!(pos, 4);
    assert_eq!(read_u32(&data, &mut pos), Err(ModelError::UnexpectedEof));
    assert_eq!(pos, 4);
}

#[test]
fn read_bool_nonzero_is_true() {
    let data = [0u8, 1, 200];
    let mut pos = 0usize;
    assert_eq!(read_bool(&data, &mut pos), Ok(false));
    assert_eq!(read_bool(&data, &mut pos), Ok(true));
    assert_eq!(read_bool(&data, &mut pos), Ok(true));
    assert_eq!(pos, 3);
    assert_eq!(read_bool(&data, &mut pos), Err(ModelError::UnexpectedEof));
}

#[test]
fn parses_a_model() {
    let (bytes, records) = model_file(3, 4, 2);
    let m = HrtfModel::from_bytes(&bytes).unwrap();
    assert_eq!(m.num_directions(), 3);
    assert_eq!(m.num_channels(), 2);
    assert_eq!(m.num_freq_bins(), 4);
    assert_eq!(m.num_pca(), 2);
    assert_eq!(m.get_position(2), (20, 21, 22));
    assert_eq!(m.positions().len(), 3);
    let itd = m.itd_ref();
    assert_eq!(itd.itd, vec![500, 501]);
    assert_eq!(itd.positions, vec![(600, 601, 602), (610, 611, 612)]);
    assert_eq!(f32::from_bits(itd.ref_width), 14.5);
    assert_eq!(f32::from_bits(itd.ref_depth), 19.5);
    let nets = m.networks();
    assert_eq!(nets.len(), 3);
    for d in 0..3 {
        assert_eq!(nets[d].len(), 2);
        for ch in 0..2 {
            let r = &nets[d][ch];
            let mut flat = Vec::new();
            flat.extend_from_slice(&r.hidden_weights);
            flat.extend_from_slice(&r.hidden_bias);
            flat.extend_from_slice(&r.output_weights);
            flat.extend_from_slice(&r.output_bias);
            if let Some((mean, std)) = &r.input_norm {
                flat.extend_from_slice(mean);
                flat.extend_from_slice(std);
            }
            flat.extend_from_slice(&r.xmin);
            flat.extend_from_slice(&r.xmax);
            flat.push(r.ymin);
            flat.push(r.ymax);
            flat.extend_from_slice(&r.pca_coeffs);
            flat.extend_from_slice(&r.pca_mean);
            assert_eq!(flat, records[d][ch]);
            assert_eq!(r.hidden_weights.len(), 160);
            assert_eq!(r.output_weights.len(), 240);
            assert_eq!(r.pca_coeffs.len(), 8);
            assert_eq!(r.pca_mean.len(), 4);
            assert_eq!(r.input_norm.is_some(), d == 0 && ch == 0);
        }
    }
}

#[test]
fn model_trailing_bytes_are_ignored() {
    let (mut bytes, _) = model_file(1, 2, 1);
    let m1 = HrtfModel::from_bytes(&bytes).unwrap();
    bytes.extend_from_slice(&[1, 2, 3, 4, 5]);
    let m2 = HrtfModel::from_bytes(&bytes).unwrap();
    assert_eq!(m1.positions(), m2.positions());
    assert_eq!(m1.itd_ref().itd, m2.itd_ref().itd);
}

#[test]
fn every_truncation_is_eof() {
    let (bytes, _) = model_file(1, 2, 1);
    for cut in 0..bytes.len() {
        assert_eq!(
            HrtfModel::from_bytes(&bytes[..cut]).err(),
            Some(ModelError::UnexpectedEof),
            "cut at {}",
            cut
        );
    }
}

#[test]
fn model_invalid_magic() {
    let (mut bytes, _) = model_file(1, 2, 1);
    bytes[0] = b'X';
    assert_eq!(HrtfModel::from_bytes(&bytes).err(), Some(ModelError::InvalidMagic));
    assert_eq!(HrtfModel::from_bytes(b"HRTX").err(), Some(ModelError::InvalidMagic));
    assert_eq!(HrtfModel::from_bytes(b"HRT").err(), Some(ModelError::UnexpectedEof));
}

#[test]
fn model_unsupported_version() {
    let (mut bytes, _) = model_file(1, 2, 1);
    bytes[4] = 3;
    assert_eq!(HrtfModel::from_bytes(&bytes).err(), Some(ModelError::UnsupportedVersion(3)));
    assert_eq!(
        HrtfModel::from_bytes(&[b'H', b'R', b'T', b'F', 2, 0, 0, 0]).err(),
        Some(ModelError::UnsupportedVersion(2))
    );
}

#[test]
fn huge_dimensions_fail_cleanly() {
    let mut bytes = b"HRTF".to_vec();
    for w in [1u32, u32::MAX, 2, u32::MAX, u32::MAX] {
        bytes.extend_from_slice(&w.to_le_bytes());
    }
    bytes.extend_from_slice(&[0u8; 100]);
    assert_eq!(HrtfModel::from_bytes(&bytes).err(), Some(ModelError::UnexpectedEof));
}

#[test]
fn zero_directions() {
    let mut bytes = b"HRTF".to_vec();
    for w in [1u32, 0, 2, 100, 12, 0, 0, 0] {
        bytes.extend_from_slice(&w.to_le_bytes());
    }
    let m = HrtfModel::from_bytes(&bytes).unwrap();
    assert_eq!(m.num_directions(), 0);
    assert_eq!(m.num_freq_bins(), 100);
    assert_eq!(m.num_pca(), 12);
    assert!(m.itd_ref().itd.is_empty());
}
