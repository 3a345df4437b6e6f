use candle_core::Device;
use candle_nn::{Dropout, VarMap};
use gpt_candle::gpt::GPTModel;
use gpt_candle::names::{name_of_block, write_decimal};
use gpt_candle::parameters::{count_parameters, element_count, report_parameters, Parameter};
use gpt_candle::scope::Scope;

fn parameter(name: &str, dims: &[usize]) -> Parameter {
    Parameter { name: name.to_string(), dims: dims.to_vec() }
}

#[test]
fn elements_are_the_product_of_the_sizes() {
    assert_eq!(element_count(&[]), Some(1));
    assert_eq!(element_count(&[2, 3, 4]), Some(24));
    assert_eq!(element_count(&[usize::MAX, usize::MAX, 0]), Some(0));
    assert_eq!(element_count(&[usize::MAX]), Some(usize::MAX));
    assert_eq!(element_count(&[usize::MAX, 2]), None);
}

#[test]
fn a_report_counts_in_order() {
    let report = count_parameters(&[parameter("a", &[2, 3]), parameter("b", &[5])]).unwrap();
    assert_eq!(report.total, 11);
    assert_eq!(report.parameters.len(), 2);
    assert_eq!(report.parameters[0].name, "a");
    assert_eq!(report.parameters[0].dims, vec![2, 3]);
    assert_eq!(report.parameters[0].count, 6);
    assert_eq!(report.parameters[1].name, "b");
    assert_eq!(report.parameters[1].count, 5);
}

#[test]
fn the_total_ignores_the_order() {
    let one = count_parameters(&[parameter("a", &[2, 3]), parameter("b", &[5])]).unwrap();
    let other = count_parameters(&[parameter("b", &[5]), parameter("a", &[2, 3])]).unwrap();
    assert_eq!(one.total, other.total);
    assert_eq!(count_parameters(&[]).unwrap().total, 0);
}

#[test]
fn too_many_elements_are_no_report() {
    assert!(count_parameters(&[parameter("a", &[usize::MAX]), parameter("b", &[1])]).is_none());
    assert!(count_parameters(&[parameter("a", &[usize::MAX, 3])]).is_none());
}

#[test]
fn numbers_are_written_in_decimal() {
    assert_eq!(write_decimal(0), "0");
    assert_eq!(write_decimal(9), "9");
    assert_eq!(write_decimal(10), "10");
    assert_eq!(write_decimal(1203456789), "1203456789");
    assert_eq!(write_decimal(usize::MAX), format!("{}", usize::MAX));
    assert_eq!(name_of_block(0), "transformer 0");
    assert_eq!(name_of_block(11), "transformer 11");
}

#[test]
fn scopes_join_their_names() {
    let vars = VarMap::new();
    let root = Scope::root(&vars, &Device::Cpu);
    assert_eq!(root.path, "");
    assert_eq!(root.pp("a").path, "a");
    assert_eq!(root.pp("a").pp("b").path, "a.b");
}

#[test]
fn every_layer_has_its_own_variables() {
    let vars = VarMap::new();
    let root = Scope::root(&vars, &Device::Cpu);
    GPTModel::new(7, 5, 4, 2, 2, &Dropout::new(0.0), &root).unwrap();
    let report = report_parameters(&vars).unwrap();
    let mut found: Vec<(String, Vec<usize>)> =
        report.parameters.iter().map(|p| (p.name.clone(), p.dims.clone())).collect();
    found.sort();
    let mut expected: Vec<(String, Vec<usize>)> = vec![
        ("tok_emb.weight".to_string(), vec![7, 4]),
        ("pos_enb.weight".to_string(), vec![5, 4]),
        ("final_norm.weight".to_string(), vec![4]),
        ("final_norm.bias".to_string(), vec![4]),
        ("out_head.weight".to_string(), vec![7, 4]),
    ];
    for i in 0..2 {
        for (name, dims) in [
            ("ff.linear1.weight", vec![16, 4]),
            ("ff.linear1.bias", vec![16]),
            ("ff.linear2.weight", vec![4, 16]),
            ("ff.linear2.bias", vec![4]),
            ("norm1.weight", vec![4]),
            ("norm1.bias", vec![4]),
            ("norm2.weight", vec![4]),
            ("norm2.bias", vec![4]),
            ("wq.weight", vec![4, 4]),
            ("wk.weight", vec![4, 4]),
            ("wv.weight", vec![4, 4]),
            ("out_proj.weight", vec![4, 4]),
            ("out_proj.bias", vec![4]),
        ] {
            expected.push((format!("transformer {}.{}", i, name), dims));
        }
    }
    expected.sort();
    assert_eq!(found, expected);
    assert_eq!(report.total, 28 + 20 + 8 + 28 + 2 * (64 + 16 + 64 + 4 + 16 + 64 + 4));
}
