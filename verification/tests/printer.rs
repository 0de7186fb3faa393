use binary_tree_formatter::printer::HeapPrinter;

fn pushed(values: &[u32]) -> HeapPrinter<u32> {
    let mut printer = HeapPrinter::new();
    for value in values {
        printer.push(*value);
    }
    printer
}

#[test]
fn largest_row_size_values() {
    let printer: HeapPrinter<u32> = HeapPrinter::new();
    assert_eq!(printer.get_largest_row_size(1), 1);
    assert_eq!(printer.get_largest_row_size(2), 2);
    assert_eq!(printer.get_largest_row_size(7), 4);
    assert_eq!(printer.get_largest_row_size(8), 8);
}

#[test]
fn largest_row_size_more_values() {
    let printer: HeapPrinter<u32> = HeapPrinter::new();
    assert_eq!(printer.get_largest_row_size(3), 2);
    assert_eq!(printer.get_largest_row_size(4), 4);
    assert_eq!(printer.get_largest_row_size(15), 8);
    assert_eq!(printer.get_largest_row_size(16), 16);
    assert_eq!(printer.get_largest_row_size(20), 16);
    assert_eq!(printer.get_largest_row_size(1023), 512);
    assert_eq!(printer.get_largest_row_size(1024), 1024);
    assert_eq!(printer.get_largest_row_size(usize::MAX), usize::MAX / 2 + 1);
}

#[test]
fn largest_row_size_is_the_power_of_two_below() {
    let printer: HeapPrinter<u32> = HeapPrinter::new();
    for count in 1..=5000usize {
        let size = printer.get_largest_row_size(count);
        assert!(size.is_power_of_two());
        assert!(size <= count);
        assert!(count < 2 * size);
    }
}

#[test]
fn new_printer_is_empty() {
    let printer: HeapPrinter<u32> = HeapPrinter::new();
    assert_eq!(printer.len(), 0);
    assert!(printer.is_empty());
    assert_eq!(printer.max_node_length(), 0);
    assert_eq!(printer.to_display_string(), "[]");
}

#[test]
fn push_widens_the_field() {
    let mut printer: HeapPrinter<u32> = HeapPrinter::new();
    printer.push(7);
    assert_eq!(printer.max_node_length(), 1);
    printer.push(120);
    assert_eq!(printer.max_node_length(), 3);
    printer.push(45);
    assert_eq!(printer.max_node_length(), 3);
    printer.push(1000);
    assert_eq!(printer.max_node_length(), 4);
    assert_eq!(printer.len(), 4);
    assert_eq!(printer.get(1), Some(&7));
}

#[test]
fn push_keeps_the_heap_order() {
    let printer = pushed(&[5, 3, 8, 1, 9, 2]);
    assert_eq!(printer.to_display_string(), "[1, 3, 2, 5, 9, 8]");
    assert_eq!(printer.get(1), Some(&1));
    assert_eq!(printer.heap().get_last_node(), Some(&8));
}

#[test]
fn print_one_node() {
    let printer = pushed(&[42]);
    assert_eq!(printer.len(), 1);
    assert_eq!(printer.get(1), Some(&42));
    assert_eq!(printer.max_node_length(), 2);
    assert_eq!(printer.print(), "42\n");
}

#[test]
fn print_one_node_in_a_wider_field() {
    let mut printer = HeapPrinter::new_rand(0, 1, 100);
    assert_eq!(printer.max_node_length(), 3);
    printer.push(42);
    assert_eq!(printer.len(), 1);
    assert_eq!(printer.get(1), Some(&42));
    assert_eq!(printer.print(), "042\n");
}

#[test]
fn print_fills_a_short_node_with_zeros() {
    let printer = pushed(&[10, 5]);
    assert_eq!(printer.to_display_string(), "[5, 10]");
    assert_eq!(printer.max_node_length(), 2);
    assert_eq!(printer.print(), "  05\n10\n");
}

#[test]
fn print_signed_nodes() {
    let mut printer: HeapPrinter<i32> = HeapPrinter::new();
    for value in [-5, 100, 7] {
        printer.push(value);
    }
    assert_eq!(printer.to_display_string(), "[-5, 100, 7]");
    assert_eq!(printer.max_node_length(), 3);
    assert_eq!(printer.print(), "   -05\n100   007\n");
}

#[test]
fn fields_agree_with_the_standard_library() {
    for value in -1200i32..=1200 {
        let mut printer: HeapPrinter<i32> = HeapPrinter::new();
        printer.push(value);
        printer.push(10000);
        assert_eq!(printer.get(1), Some(&value));
        assert_eq!(printer.print_row(1, 1, "", ""), format!("{:05}\n", value));
        assert_eq!(printer.print_row(1, 2, "", "|"), format!("{:05}|10000\n", value));
    }
    for value in 0u64..=999 {
        let mut printer: HeapPrinter<u64> = HeapPrinter::new();
        printer.push(value);
        printer.push(100);
        let least = value.min(100);
        assert_eq!(printer.print_row(1, 1, "", ""), format!("{:03}\n", least));
    }
}

#[test]
fn print_six_nodes() {
    let printer = pushed(&[5, 3, 8, 1, 9, 2]);
    assert_eq!(printer.print(), "   1\n 3   2\n5 9 8\n");
}

#[test]
fn print_a_full_tree() {
    let printer = pushed(&[1, 2, 3, 4, 5, 6, 7]);
    assert_eq!(printer.print(), "   1\n 2   3\n4 5 6 7\n");
}

#[test]
fn print_two_digit_nodes() {
    let printer = pushed(&[10, 20, 30]);
    assert_eq!(printer.print(), "  10\n20  30\n");
}

#[test]
fn print_nodes_of_mixed_length() {
    let printer = pushed(&[5, 100]);
    assert_eq!(printer.print(), "   005\n100\n");
    let printer = pushed(&[5, 100, 20, 7]);
    assert_eq!(printer.to_display_string(), "[5, 7, 20, 100]");
    assert_eq!(printer.print(), "         005\n   007         020\n100\n");
}

#[test]
fn print_four_levels() {
    let printer = pushed(&[1, 2, 3, 4, 5, 6, 7, 8, 9]);
    let expected = "       1\n   2       3\n 4   5   6   7\n8 9\n";
    assert_eq!(printer.print(), expected);
}

#[test]
fn print_has_a_line_for_each_level() {
    for count in 1..=40u32 {
        let mut printer: HeapPrinter<u32> = HeapPrinter::new();
        for value in 1..=count {
            printer.push(value);
        }
        let drawing = printer.print();
        let levels = (32 - count.leading_zeros()) as usize;
        assert_eq!(drawing.lines().count(), levels);
        assert!(drawing.ends_with('\n'));
        let numbers: Vec<u32> =
            drawing.split_whitespace().map(|word| word.parse().unwrap()).collect();
        let expected: Vec<u32> = (1..=count).collect();
        assert_eq!(numbers, expected);
    }
}

#[test]
fn print_row_values() {
    let printer = pushed(&[1, 2, 3, 4, 5, 6]);
    assert_eq!(printer.print_row(1, 1, "   ", " "), "   1\n");
    assert_eq!(printer.print_row(2, 3, " ", " "), " 2   3\n");
    assert_eq!(printer.print_row(4, 7, "", " "), "4 5 6\n");
    assert_eq!(printer.print_row(4, 6, "", " "), "4 5 6\n");
    assert_eq!(printer.print_row(2, 4, "..", "#"), "..2..#..3..#..4\n");
    assert_eq!(printer.print_row(5, 2, "-", "#"), "-2\n");
    assert_eq!(printer.print_row(9, 20, "-", "#"), "-6\n");
}

#[test]
fn print_row_pads_short_nodes() {
    let printer = pushed(&[5, 100, 20]);
    assert_eq!(printer.print_row(1, 3, "", "|"), "005|100|020\n");
}

#[test]
fn random_printer_has_the_count_and_the_range() {
    let printer = HeapPrinter::new_rand(20, 1, 50);
    assert_eq!(printer.len(), 20);
    assert_eq!(printer.max_node_length(), 2);
    for index in 1..=20usize {
        let value = *printer.get(index).unwrap();
        assert!((1..=50).contains(&value));
        if index >= 2 {
            assert!(printer.get(index / 2).unwrap() <= &value);
        }
    }
    let drawing = printer.print();
    assert_eq!(drawing.lines().count(), 5);
    let first = drawing.lines().next().unwrap();
    assert_eq!(first.len(), 2 * 15 + 2);
}

#[test]
fn random_printer_field_is_as_wide_as_the_highest_numeral() {
    assert_eq!(HeapPrinter::new_rand(0, 1, 9).max_node_length(), 1);
    assert_eq!(HeapPrinter::new_rand(0, 1, 10).max_node_length(), 2);
    assert_eq!(HeapPrinter::new_rand(3, 1, 999).max_node_length(), 3);
    assert_eq!(HeapPrinter::new_rand(3, 0, u32::MAX).max_node_length(), 10);
}
