use vstd::prelude::*;

verus! {

/// The payment methods the simulator offers.
#[derive(PartialEq, Eq, Structural, Clone, Copy, Debug)]
pub enum PaymentMethod {
    Visa,
    Mastercard,
    PayPal,
}

/// What one answer to the payment menu means.
#[derive(PartialEq, Eq, Structural, Clone, Copy, Debug)]
pub enum MenuChoice {
    Selected { method: PaymentMethod },
    Cancel,
    Invalid,
}

/// How a payment attempt ends.
#[derive(PartialEq, Eq, Structural, Clone, Copy, Debug)]
pub enum PaymentOutcome {
    Paid { method: PaymentMethod },
    Cancelled,
}

/// The menu mapping: 1 is Visa, 2 is Mastercard, 3 is PayPal, 4 cancels
/// the transaction, and any other number asks again.
pub open spec fn menu_choice_spec(choice: u32) -> MenuChoice {
    if choice == 1 {
        MenuChoice::Selected { method: PaymentMethod::Visa }
    } else if choice == 2 {
        MenuChoice::Selected { method: PaymentMethod::Mastercard }
    } else if choice == 3 {
        MenuChoice::Selected { method: PaymentMethod::PayPal }
    } else if choice == 4 {
        MenuChoice::Cancel
    } else {
        MenuChoice::Invalid
    }
}

/// Reads a numeric menu answer as a method, a cancellation, or an
/// invalid choice that the caller re-prompts on.
pub fn interpret_choice(choice: u32) -> (r: MenuChoice)
    ensures
        r == menu_choice_spec(choice),
{
    match choice {
        1 => MenuChoice::Selected { method: PaymentMethod::Visa },
        2 => MenuChoice::Selected { method: PaymentMethod::Mastercard },
        3 => MenuChoice::Selected { method: PaymentMethod::PayPal },
        4 => MenuChoice::Cancel,
        _ => MenuChoice::Invalid,
    }
}

/// The simulator's processing step: once a method is chosen, the
/// simulated payment always reports success, with no real effect.
pub fn process_payment(method: PaymentMethod) -> (r: PaymentOutcome)
    ensures
        r == (PaymentOutcome::Paid { method }),
{
    PaymentOutcome::Paid { method }
}

/// The display name of a method, as the receipt prints it.
pub open spec fn method_label(m: PaymentMethod) -> Seq<char> {
    match m {
        PaymentMethod::Visa => "Visa"@,
        PaymentMethod::Mastercard => "Mastercard"@,
        PaymentMethod::PayPal => "PayPal"@,
    }
}

/// The display name of a method.
pub fn method_name(m: PaymentMethod) -> (r: &'static str)
    ensures
        r@ == method_label(m),
{
    match m {
        PaymentMethod::Visa => "Visa",
        PaymentMethod::Mastercard => "Mastercard",
        PaymentMethod::PayPal => "PayPal",
    }
}

} // verus!
