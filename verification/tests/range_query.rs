use webgraph_core::column::{Column, SegmentColumnFields};
use webgraph_core::doc_address::SegmentId;
use webgraph_core::error::Error;
use webgraph_core::range_query::{bound_to_value_range, min_max, Bound, IPFastFieldRangeWeight};

#[derive(Clone, Debug)]
struct Doc {
    ip: u128,
}

fn doc_from_id_1(id: u64) -> Doc {
    let id = id * 1000;
    Doc { ip: id as u128 }
}

fn doc_from_id_2(id: u64) -> Doc {
    let id = id * 1000;
    Doc { ip: id as u128 }
}

fn columns(docs: &[Doc]) -> SegmentColumnFields {
    SegmentColumnFields {
        segment_id: SegmentId(0),
        from_id: Some(Column::new(docs.iter().map(|d| Some(d.ip)).collect())),
        to_id: None,
        from_host_id: None,
        to_host_id: None,
        rel_flags: None,
        sort_score: None,
    }
}

fn test_ip_range_for_docs(docs: &[Doc]) {
    let fields = columns(docs);
    let max_doc = docs.len() as u32;
    let test_sample = |sample_docs: &[Doc]| {
        let mut ips: Vec<u128> = sample_docs.iter().map(|doc| doc.ip).collect();
        ips.sort();
        let expected: Vec<u32> = docs
            .iter()
            .enumerate()
            .filter(|(_, doc)| (ips[0]..=ips[1]).contains(&doc.ip))
            .map(|(i, _)| i as u32)
            .collect();
        let weight = IPFastFieldRangeWeight::new(
            "from_id".to_string(),
            Bound::Included(ips[0]),
            Bound::Included(ips[1]),
        );
        assert_eq!(weight.scorer(&fields, max_doc), expected);
        for hit in expected.iter() {
            assert_eq!(weight.explain(&fields, max_doc, *hit), Ok("Const"));
        }
        let inner: Vec<u32> = docs
            .iter()
            .enumerate()
            .filter(|(_, doc)| ips[0] < doc.ip && doc.ip < ips[1])
            .map(|(i, _)| i as u32)
            .collect();
        let weight = IPFastFieldRangeWeight::new(
            "from_id".to_string(),
            Bound::Excluded(ips[0]),
            Bound::Excluded(ips[1]),
        );
        if ips[1] > 0 {
            assert_eq!(weight.scorer(&fields, max_doc), inner);
        }
    };

    test_sample(&[docs[0].clone(), docs[0].clone()]);
    if docs.len() > 1 {
        test_sample(&[docs[0].clone(), docs[1].clone()]);
        test_sample(&[docs[1].clone(), docs[1].clone()]);
    }
    if docs.len() > 2 {
        test_sample(&[docs[1].clone(), docs[2].clone()]);
    }
}

#[test]
fn test_ip_range_regression1() {
    let ops = &[doc_from_id_1(0)];
    test_ip_range_for_docs(ops);
}

#[test]
fn test_ip_range_regression2() {
    let ops = &[
        doc_from_id_1(52),
        doc_from_id_1(63),
        doc_from_id_1(12),
        doc_from_id_2(91),
        doc_from_id_2(33),
    ];
    test_ip_range_for_docs(ops);
}

#[test]
fn test_ip_range_regression3() {
    let ops = &[doc_from_id_1(1), doc_from_id_1(2), doc_from_id_1(3)];
    test_ip_range_for_docs(ops);
}

#[test]
fn test_ip_range_regression3_simple() {
    let ip_addrs: Vec<u128> = vec![1000, 2000, 3000];
    let docs: Vec<Doc> = ip_addrs.iter().map(|ip| Doc { ip: *ip }).collect();
    let fields = columns(&docs);
    let range_weight = IPFastFieldRangeWeight {
        field: "from_id".to_string(),
        lower_bound: Bound::Included(ip_addrs[1]),
        upper_bound: Bound::Included(ip_addrs[2]),
    };
    let count = range_weight.scorer(&fields, 3).len();
    assert_eq!(count, 2);
}

#[test]
fn bounds_give_the_ends_of_a_range() {
    assert_eq!(bound_to_value_range(&Bound::Included(5), &Bound::Included(9), 1, 100), (5, 9));
    assert_eq!(bound_to_value_range(&Bound::Excluded(5), &Bound::Excluded(9), 1, 100), (6, 8));
    assert_eq!(bound_to_value_range(&Bound::Unbounded, &Bound::Unbounded, 1, 100), (1, 100));
    assert_eq!(bound_to_value_range(&Bound::Excluded(0), &Bound::Excluded(u128::MAX), 1, 100), (1, u128::MAX - 1));
    assert_eq!(min_max(&Column::new(vec![Some(7), None, Some(3), Some(9)])), (3, 9));
    assert_eq!(min_max(&Column::new(vec![None, None])), (u128::MAX, 0));
    assert_eq!(min_max(&Column::new(vec![Some(4)])), (4, 4));
}

#[test]
fn a_range_without_a_bound_reaches_to_the_end_of_the_column() {
    let docs: Vec<Doc> = [40u128, 10, 30, 20].iter().map(|ip| Doc { ip: *ip }).collect();
    let mut fields = columns(&docs);
    fields.from_id.as_mut().unwrap().values.push(None);
    let weight = |lower, upper| IPFastFieldRangeWeight::new("from_id".to_string(), lower, upper);
    assert_eq!(weight(Bound::Unbounded, Bound::Unbounded).scorer(&fields, 5), vec![0, 1, 2, 3]);
    assert_eq!(weight(Bound::Excluded(10), Bound::Unbounded).scorer(&fields, 5), vec![0, 2, 3]);
    assert_eq!(weight(Bound::Unbounded, Bound::Excluded(30)).scorer(&fields, 5), vec![1, 3]);
    assert_eq!(weight(Bound::Unbounded, Bound::Excluded(30)).scorer(&fields, 2), vec![1]);
    assert_eq!(weight(Bound::Included(50), Bound::Unbounded).scorer(&fields, 5), Vec::<u32>::new());
    assert_eq!(weight(Bound::Excluded(u128::MAX), Bound::Unbounded).scorer(&fields, 5), Vec::<u32>::new());
    assert_eq!(weight(Bound::Unbounded, Bound::Excluded(0)).scorer(&fields, 5), Vec::<u32>::new());
    let other = IPFastFieldRangeWeight::new("ips".to_string(), Bound::Unbounded, Bound::Unbounded);
    assert_eq!(other.scorer(&fields, 5), Vec::<u32>::new());
    let missing = IPFastFieldRangeWeight::new("to_id".to_string(), Bound::Unbounded, Bound::Unbounded);
    assert_eq!(missing.scorer(&fields, 5), Vec::<u32>::new());

    let some = weight(Bound::Included(20), Bound::Included(30));
    assert_eq!(some.explain(&fields, 5, 2), Ok("Const"));
    assert_eq!(some.explain(&fields, 5, 0), Err(Error::DocumentDoesNotMatch(0)));
    assert_eq!(some.explain(&fields, 5, 4), Err(Error::DocumentDoesNotMatch(4)));
    assert_eq!(some.explain(&fields, 5, 77), Err(Error::DocumentDoesNotMatch(77)));
    assert!(fields.column_opt("from_id").is_some());
    assert!(fields.column_opt("to_host_id").is_none());
    assert!(fields.column_opt("rel_flags").is_none());
}
