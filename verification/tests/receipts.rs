use shopping_assistant::payment::PaymentMethod;
use shopping_assistant::product::Product;
use shopping_assistant::receipt::format_receipt;
use shopping_assistant::receipt::make_receipt;
use shopping_assistant::receipt::receipt_filename;
use shopping_assistant::receipt::Timestamp;

fn sample_time() -> Timestamp {
    Timestamp { year: 2024, month: 1, day: 2, hour: 3, minute: 4, second: 5 }
}

#[test]
fn filename_carries_the_timestamp() {
    assert_eq!(receipt_filename(sample_time()), "receipt_20240102_030405.txt");
    let noon = Timestamp { year: 1999, month: 12, day: 31, hour: 23, minute: 59, second: 59 };
    assert_eq!(receipt_filename(noon), "receipt_19991231_235959.txt");
}

#[test]
fn receipt_for_one_book_without_payment_line() {
    let catalog = vec![Product { name: String::from("Book"), price: 1000 }];
    let text = format_receipt(&catalog, 1000, None, sample_time());
    let expected = format!(
        "Receipt - 2024-01-02 03:04:05\n{}\n{:<20} {:>15}\n{}\n{:<20} {:>15}\n",
        "-".repeat(40),
        "Book",
        "10.00",
        "-".repeat(40),
        "TOTAL",
        "10.00",
    );
    assert_eq!(text, expected);
    assert!(text.contains("Book"));
    assert!(text.contains("10.00"));
    assert!(text.contains("TOTAL"));
    assert!(!text.contains("Payment Method"));
}

#[test]
fn receipt_names_the_payment_method() {
    let catalog = vec![
        Product { name: String::from("Book"), price: 1000 },
        Product { name: String::from("Pen"), price: 250 },
    ];
    let text = format_receipt(&catalog, 1250, Some(PaymentMethod::Visa), sample_time());
    assert!(text.ends_with("Payment Method: Visa\n"));
    assert!(text.contains("Pen"));
    assert!(text.contains("2.50"));
    assert!(text.contains("12.50"));
}

#[test]
fn long_names_are_not_truncated() {
    let catalog = vec![Product {
        name: String::from("An unusually long product name"),
        price: 99,
    }];
    let text = format_receipt(&catalog, 99, None, sample_time());
    assert!(text.contains("An unusually long product name"));
    assert!(text.contains("0.99"));
}

#[test]
fn made_receipts_use_the_clock_for_the_name() {
    let catalog = vec![Product { name: String::from("Book"), price: 1000 }];
    let receipt = make_receipt(&catalog, 1000, None);
    assert!(receipt.filename.starts_with("receipt_"));
    assert!(receipt.filename.ends_with(".txt"));
    assert_eq!(receipt.filename.len(), "receipt_YYYYMMDD_HHMMSS.txt".len());
    assert!(receipt.contents.starts_with("Receipt - "));
    assert!(receipt.contents.contains("Book"));
    assert!(receipt.contents.contains("TOTAL"));
}
