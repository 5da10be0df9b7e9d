use rgb_core::fungible::{
    sum_amounts, sum_blinding, validate_balance, BlindingFactor, FieldOrderOverflow,
    RevealedFungible, ValidationError, ORDER_0, ORDER_1, ORDER_2, ORDER_3,
};

fn scalar(n: u64) -> BlindingFactor {
    BlindingFactor::from_limbs(n, 0, 0, 0).unwrap()
}

fn order_minus(k: u64) -> BlindingFactor {
    BlindingFactor::from_limbs(ORDER_0 - k, ORDER_1, ORDER_2, ORDER_3).unwrap()
}

fn state(amount: u64, blinding: BlindingFactor) -> RevealedFungible {
    RevealedFungible { amount, blinding }
}

#[test]
fn scalars_at_or_above_the_order_are_refused() {
    assert_eq!(BlindingFactor::from_limbs(ORDER_0, ORDER_1, ORDER_2, ORDER_3), Err(FieldOrderOverflow));
    assert_eq!(BlindingFactor::from_limbs(u64::MAX, u64::MAX, u64::MAX, u64::MAX), Err(FieldOrderOverflow));
    assert!(BlindingFactor::from_limbs(ORDER_0 - 1, ORDER_1, ORDER_2, ORDER_3).is_ok());
    assert!(BlindingFactor::from_limbs(0, 0, 0, 0).is_ok());
}

#[test]
fn blinding_addition_wraps_at_the_order() {
    assert_eq!(order_minus(1).add_mod(&scalar(1)), BlindingFactor::zero());
    assert_eq!(order_minus(1).add_mod(&order_minus(1)), order_minus(2));
    assert_eq!(scalar(2).add_mod(&scalar(3)), scalar(5));
    let carry = BlindingFactor::from_limbs(u64::MAX, 0, 0, 0).unwrap().add_mod(&scalar(1));
    assert_eq!(carry, BlindingFactor::from_limbs(0, 1, 0, 0).unwrap());
}

#[test]
fn balanced_transition_is_accepted() {
    let inputs = [state(100, scalar(7)), state(50, order_minus(3))];
    let outputs = [state(120, scalar(2)), state(20, scalar(1)), state(10, scalar(1))];
    assert_eq!(validate_balance(&inputs, &outputs), Ok(()));
    assert_eq!(validate_balance(&[], &[]), Ok(()));
    assert_eq!(validate_balance(&[state(0, scalar(0))], &[]), Ok(()));
}

#[test]
fn unbalanced_transition_is_rejected() {
    let inputs = [state(100, scalar(7))];
    assert_eq!(
        validate_balance(&inputs, &[state(99, scalar(7))]),
        Err(ValidationError::BalanceMismatch)
    );
    assert_eq!(
        validate_balance(&inputs, &[state(100, scalar(8))]),
        Err(ValidationError::BalanceMismatch)
    );
    assert_eq!(validate_balance(&[], &[state(1, scalar(0))]), Err(ValidationError::BalanceMismatch));
}

#[test]
fn sums_do_not_wrap() {
    let big = [state(u64::MAX, scalar(0)), state(u64::MAX, scalar(0))];
    assert_eq!(sum_amounts(&big), 2 * (u64::MAX as u128));
    assert_eq!(
        validate_balance(&[state(u64::MAX, scalar(0)), state(1, scalar(0))], &[state(0, scalar(0))]),
        Err(ValidationError::BalanceMismatch)
    );
    let wrapped = [state(0, order_minus(1)), state(0, scalar(4))];
    assert_eq!(sum_blinding(&wrapped), scalar(3));
}
