use dark_matter_simulator::artifact::NpyData;
use dark_matter_simulator::codec::{decode, try_encode};
use dark_matter_simulator::grid::{save_galaxy_data, Scalar};
use npyz::WriterBuilder;

fn bits(values: &[f32]) -> Vec<u32> {
    values.iter().map(|v| v.to_bits()).collect()
}

fn read_with_npyz(bytes: &[u8]) -> (Vec<u64>, Vec<f32>) {
    let npy = npyz::NpyFile::new(bytes).unwrap();
    assert_eq!(npy.order(), npyz::Order::C);
    let shape = npy.shape().to_vec();
    let data = npy.into_vec::<f32>().unwrap();
    (shape, data)
}

fn write_with_npyz(shape: &[u64], values: &[f32]) -> Vec<u8> {
    let mut out: Vec<u8> = Vec::new();
    let mut writer = npyz::WriteOptions::new()
        .default_dtype()
        .shape(shape)
        .writer(&mut out)
        .begin_nd()
        .unwrap();
    writer.extend(values.iter().copied()).unwrap();
    writer.finish().unwrap();
    out
}

#[test]
fn npyz_reads_what_encode_writes() {
    let values = [1.0f32, -1.0, 2.5, 0.0, 1e-30, 3.5e20];
    for shape in [vec![6u64], vec![2, 3], vec![3, 2, 1], vec![1, 1, 6, 1]] {
        let a = NpyData { data: bits(&values), shape: shape.clone() };
        let bytes = try_encode(&a).unwrap();
        let (read_shape, read_data) = read_with_npyz(&bytes);
        assert_eq!(read_shape, shape);
        assert_eq!(read_data, values.to_vec());
    }
}

#[test]
fn npyz_reads_empty_and_scalar_files() {
    let empty = try_encode(&NpyData { data: vec![], shape: vec![4, 0] }).unwrap();
    assert_eq!(read_with_npyz(&empty), (vec![4, 0], vec![]));
    let scalar = try_encode(&NpyData { data: bits(&[8.5]), shape: vec![] }).unwrap();
    assert_eq!(read_with_npyz(&scalar), (vec![], vec![8.5]));
}

#[test]
fn decode_reads_what_npyz_writes() {
    let values = [0.25f32, -7.0, 1000.0, 0.0, -0.0, 6.0];
    for shape in [vec![6u64], vec![2, 3], vec![1, 6], vec![3, 1, 2]] {
        let bytes = write_with_npyz(&shape, &values);
        assert_eq!(decode(&bytes), Ok(NpyData { data: bits(&values), shape }));
    }
}

#[test]
fn npyz_reads_the_galaxy_file() {
    let galaxy = vec![
        Scalar { float_bits: Some(12.5f32.to_bits()), unsigned: None },
        Scalar { float_bits: Some(1.0f32.to_bits()), unsigned: Some(1) },
        Scalar { float_bits: Some(2.0f32.to_bits()), unsigned: Some(2) },
        Scalar { float_bits: Some(3.0f32.to_bits()), unsigned: Some(3) },
    ];
    let bytes = save_galaxy_data(&vec![Some(galaxy)]);
    let (shape, data) = read_with_npyz(&bytes);
    assert_eq!(shape, vec![64, 64, 64]);
    assert_eq!(data.len(), 262144);
    assert_eq!(data[1 * 4096 + 2 * 64 + 3], 12.5);
    assert_eq!(data.iter().filter(|v| **v == -1.0).count(), 262143);
}
