use deet::parallel_map::{collect_in_order, number_items, place, Resul};

#[test]
fn items_are_numbered_from_the_last_to_the_first() {
    let work = number_items(vec!['a', 'b', 'c']);
    assert_eq!(
        work,
        vec![
            Resul { value: 'c', index: 2 },
            Resul { value: 'b', index: 1 },
            Resul { value: 'a', index: 0 },
        ]
    );
    assert_eq!(number_items(Vec::<u8>::new()), vec![]);
}

#[test]
fn a_result_is_placed_before_the_first_that_is_not_below_it() {
    let mut recvs = vec![1, 4, 6];
    let mut output = vec!["one", "four", "six"];
    place(&mut recvs, &mut output, Resul { value: "five", index: 5 });
    assert_eq!(recvs, vec![1, 4, 5, 6]);
    assert_eq!(output, vec!["one", "four", "five", "six"]);
    place(&mut recvs, &mut output, Resul { value: "zero", index: 0 });
    assert_eq!(recvs, vec![0, 1, 4, 5, 6]);
    place(&mut recvs, &mut output, Resul { value: "nine", index: 9 });
    assert_eq!(recvs, vec![0, 1, 4, 5, 6, 9]);
    assert_eq!(output, vec!["zero", "one", "four", "five", "six", "nine"]);
    place(&mut recvs, &mut output, Resul { value: "four again", index: 4 });
    assert_eq!(recvs, vec![0, 1, 4, 4, 5, 6, 9]);
    assert_eq!(output, vec!["zero", "one", "four again", "four", "five", "six", "nine"]);
}

#[test]
fn the_first_result_is_placed_in_the_empty_output() {
    let mut recvs: Vec<usize> = vec![];
    let mut output: Vec<u8> = vec![];
    place(&mut recvs, &mut output, Resul { value: 7, index: 3 });
    assert_eq!(recvs, vec![3]);
    assert_eq!(output, vec![7]);
}

#[test]
fn results_end_in_the_order_of_their_numbers() {
    let results = vec![
        Resul { value: 9, index: 2 },
        Resul { value: 1, index: 0 },
        Resul { value: 16, index: 3 },
        Resul { value: 4, index: 1 },
    ];
    assert_eq!(collect_in_order(results), vec![1, 4, 9, 16]);
    assert_eq!(collect_in_order(Vec::<Resul<u8>>::new()), Vec::<u8>::new());
}

#[test]
fn mapping_through_the_numbering_keeps_each_value_at_its_place() {
    let input = vec![6, 7, 8, 9, 10, 1, 2, 3, 4, 5, 12, 18, 11, 5, 20];
    let mut work = number_items(input.clone());
    work.swap(0, 7);
    work.swap(3, 11);
    work.rotate_left(4);
    let results: Vec<Resul<i32>> =
        work.into_iter().map(|w| Resul { value: w.value * w.value, index: w.index }).collect();
    let squares = collect_in_order(results);
    let expected: Vec<i32> = input.iter().map(|n| n * n).collect();
    assert_eq!(squares, expected);
}
