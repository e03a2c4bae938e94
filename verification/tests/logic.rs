use shopping_assistant::catalog::CatalogBuilder;
use shopping_assistant::money::money_string;
use shopping_assistant::money::u64_to_string;
use shopping_assistant::parse::is_sentinel;
use shopping_assistant::parse::parse_choice;
use shopping_assistant::parse::parse_price;
use shopping_assistant::payment::interpret_choice;
use shopping_assistant::payment::method_name;
use shopping_assistant::payment::process_payment;
use shopping_assistant::payment::MenuChoice;
use shopping_assistant::payment::PaymentMethod;
use shopping_assistant::payment::PaymentOutcome;
use shopping_assistant::planner::catalog_total;
use shopping_assistant::planner::decide;
use shopping_assistant::planner::decide_catalog;
use shopping_assistant::planner::greedy_prefix;
use shopping_assistant::planner::sort_by_price;
use shopping_assistant::planner::Decision;
use shopping_assistant::product::Product;

fn product(name: &str, price: u64) -> Product {
    Product { name: String::from(name), price }
}

#[test]
fn parse_price_accepts_plain_amounts() {
    assert_eq!(parse_price("10"), Some(1000));
    assert_eq!(parse_price("10.5"), Some(1050));
    assert_eq!(parse_price("10.50"), Some(1050));
    assert_eq!(parse_price("0.05"), Some(5));
    assert_eq!(parse_price("0"), Some(0));
    assert_eq!(parse_price("5."), Some(500));
    assert_eq!(parse_price("007"), Some(700));
    assert_eq!(parse_price("+3"), Some(300));
}

#[test]
fn parse_price_rejects_garbage() {
    assert_eq!(parse_price("abc"), None);
    assert_eq!(parse_price(""), None);
    assert_eq!(parse_price("-5"), None);
    assert_eq!(parse_price("1.234"), None);
    assert_eq!(parse_price("1..2"), None);
    assert_eq!(parse_price("."), None);
    assert_eq!(parse_price("+"), None);
    assert_eq!(parse_price("10,5"), None);
    assert_eq!(parse_price(" 10"), None);
    assert_eq!(parse_price("10 "), None);
}

#[test]
fn parse_price_bounds_the_integer_digits() {
    assert_eq!(parse_price("123456789012345"), Some(12_345_678_901_234_500));
    assert_eq!(parse_price("1234567890123456"), None);
}

#[test]
fn parse_choice_reads_small_numbers() {
    assert_eq!(parse_choice("1"), Some(1));
    assert_eq!(parse_choice("4"), Some(4));
    assert_eq!(parse_choice("+2"), Some(2));
    assert_eq!(parse_choice("042"), Some(42));
    assert_eq!(parse_choice("abc"), None);
    assert_eq!(parse_choice(""), None);
    assert_eq!(parse_choice("1.5"), None);
    assert_eq!(parse_choice("1234567890"), None);
}

#[test]
fn sentinel_matches_done_in_any_case() {
    assert!(is_sentinel("done"));
    assert!(is_sentinel("DONE"));
    assert!(is_sentinel("Done"));
    assert!(is_sentinel("dOnE"));
    assert!(!is_sentinel("dome"));
    assert!(!is_sentinel("don"));
    assert!(!is_sentinel("done "));
    assert!(!is_sentinel(""));
}

#[test]
fn sentinel_first_yields_empty_catalog() {
    let mut builder = CatalogBuilder::new();
    builder.give_name(String::from("done"));
    assert!(builder.is_finished());
    assert_eq!(builder.item_count(), 0);
    let catalog = builder.into_catalog();
    assert!(catalog.is_empty());
}

#[test]
fn builder_collects_named_products() {
    let mut builder = CatalogBuilder::new();
    builder.give_name(String::from("Book"));
    assert!(builder.awaiting_price());
    builder.give_price("10.00");
    assert_eq!(builder.item_count(), 1);
    builder.give_name(String::from("Pen"));
    builder.give_price("2.50");
    builder.give_name(String::from("DONE"));
    assert!(builder.is_finished());
    let catalog = builder.into_catalog();
    assert_eq!(catalog.len(), 2);
    assert_eq!(catalog[0].name, "Book");
    assert_eq!(catalog[0].price, 1000);
    assert_eq!(catalog[1].name, "Pen");
    assert_eq!(catalog[1].price, 250);
}

#[test]
fn bad_price_reprompts_without_touching_the_catalog() {
    let mut builder = CatalogBuilder::new();
    builder.give_name(String::from("Book"));
    builder.give_price("abc");
    assert!(builder.awaiting_price());
    assert_eq!(builder.item_count(), 0);
    builder.give_price("15");
    assert!(!builder.awaiting_price());
    assert_eq!(builder.item_count(), 1);
    let catalog = builder.into_catalog();
    assert_eq!(catalog[0].name, "Book");
    assert_eq!(catalog[0].price, 1500);
}

#[test]
fn sort_orders_by_price_and_keeps_equal_prices_stable() {
    let mut catalog = vec![
        product("b", 500),
        product("a", 500),
        product("c", 100),
        product("d", 500),
    ];
    sort_by_price(&mut catalog);
    let names: Vec<&str> = catalog.iter().map(|p| p.name.as_str()).collect();
    assert_eq!(names, vec!["c", "b", "a", "d"]);
    assert_eq!(catalog[0].price, 100);
    assert_eq!(catalog[1].price, 500);
}

#[test]
fn greedy_takes_the_longest_affordable_prefix() {
    let mut catalog = vec![product("x", 100), product("y", 200), product("z", 300), product(
        "w", 400,
    )];
    sort_by_price(&mut catalog);
    let plan = greedy_prefix(&catalog, 650);
    assert_eq!(plan.count, 3);
    assert_eq!(plan.total_affordable, 600);
    assert_eq!(plan.remaining_budget, 50);
    let none = greedy_prefix(&catalog, 0);
    assert_eq!(none.count, 0);
    assert_eq!(none.total_affordable, 0);
    assert_eq!(none.remaining_budget, 0);
    let all = greedy_prefix(&catalog, 10_000);
    assert_eq!(all.count, 4);
    assert_eq!(all.total_affordable, 1000);
    assert_eq!(all.remaining_budget, 9000);
}

#[test]
fn greedy_running_totals_never_pass_the_budget() {
    let mut catalog = vec![product("x", 100), product("y", 200), product("z", 300), product(
        "w", 400,
    )];
    sort_by_price(&mut catalog);
    let budget = 650;
    let plan = greedy_prefix(&catalog, budget);
    let mut running = 0u64;
    let mut last = 0u64;
    for item in catalog.iter().take(plan.count) {
        running += item.price;
        assert!(running >= last);
        assert!(running <= budget);
        last = running;
    }
    assert_eq!(running, plan.total_affordable);
}

#[test]
fn decision_weighs_the_whole_catalog_not_the_greedy_subset() {
    let mut catalog = vec![product("a", 500), product("b", 500), product("c", 500)];
    sort_by_price(&mut catalog);
    let plan = greedy_prefix(&catalog, 1200);
    assert_eq!(plan.count, 2);
    assert_eq!(plan.total_affordable, 1000);
    assert_eq!(plan.remaining_budget, 200);
    assert_eq!(catalog_total(&catalog), Some(1500));
    assert_eq!(decide_catalog(&catalog, 1200), Some(Decision::Shortfall { amount: 300 }));
}

#[test]
fn total_equal_to_budget_is_affordable() {
    let catalog = vec![product("Book", 1000)];
    assert_eq!(catalog_total(&catalog), Some(1000));
    assert_eq!(decide(1000, 1000), Decision::AffordAll);
    assert_eq!(decide_catalog(&catalog, 1000), Some(Decision::AffordAll));
}

#[test]
fn shortfall_is_the_difference() {
    let catalog = vec![product("Book", 1500)];
    assert_eq!(decide_catalog(&catalog, 1000), Some(Decision::Shortfall { amount: 500 }));
    assert_eq!(decide(1500, 1000), Decision::Shortfall { amount: 500 });
}

#[test]
fn catalog_total_reports_an_unrepresentable_sum() {
    let catalog = vec![product("a", u64::MAX), product("b", 1)];
    assert_eq!(catalog_total(&catalog), None);
    assert_eq!(decide_catalog(&catalog, 1000), None);
}

#[test]
fn menu_maps_numbers_to_methods() {
    assert_eq!(interpret_choice(1), MenuChoice::Selected { method: PaymentMethod::Visa });
    assert_eq!(interpret_choice(2), MenuChoice::Selected { method: PaymentMethod::Mastercard });
    assert_eq!(interpret_choice(3), MenuChoice::Selected { method: PaymentMethod::PayPal });
    assert_eq!(interpret_choice(4), MenuChoice::Cancel);
    assert_eq!(interpret_choice(0), MenuChoice::Invalid);
    assert_eq!(interpret_choice(7), MenuChoice::Invalid);
}

#[test]
fn chosen_methods_always_pay() {
    assert_eq!(
        process_payment(PaymentMethod::PayPal),
        PaymentOutcome::Paid { method: PaymentMethod::PayPal }
    );
}

#[test]
fn methods_have_display_names() {
    assert_eq!(method_name(PaymentMethod::Visa), "Visa");
    assert_eq!(method_name(PaymentMethod::Mastercard), "Mastercard");
    assert_eq!(method_name(PaymentMethod::PayPal), "PayPal");
}

#[test]
fn money_renders_with_two_decimals() {
    assert_eq!(money_string(1050), "10.50");
    assert_eq!(money_string(5), "0.05");
    assert_eq!(money_string(0), "0.00");
    assert_eq!(money_string(123_456), "1234.56");
    assert_eq!(money_string(100), "1.00");
}

#[test]
fn numbers_render_in_decimal() {
    assert_eq!(u64_to_string(0), "0");
    assert_eq!(u64_to_string(10), "10");
    assert_eq!(u64_to_string(18_446_744_073_709_551_615), "18446744073709551615");
}
