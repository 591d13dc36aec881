use katgen::kinds::T;

#[test]
fn integers_unify_to_the_wider() {
    assert_eq!(T::Integer(3).unify(&T::Integer(9)), Ok(T::Integer(9)));
    assert_eq!(T::Integer(9).unify(&T::Integer(3)), Ok(T::Integer(9)));
    assert_eq!(T::Integer(4).unify(&T::Integer(4)), Ok(T::Integer(4)));
}

#[test]
fn bytes_unify_to_the_longer() {
    assert_eq!(T::Bytes(4).unify(&T::Bytes(16)), Ok(T::Bytes(16)));
    assert_eq!(T::Bytes(16).unify(&T::Bytes(4)), Ok(T::Bytes(16)));
}

#[test]
fn strings_unify_to_string() {
    assert_eq!(T::String.unify(&T::String), Ok(T::String));
}

#[test]
fn different_kinds_do_not_unify() {
    let all = [T::Integer(8), T::String, T::Bytes(8)];
    for (i, a) in all.iter().enumerate() {
        for (j, b) in all.iter().enumerate() {
            if i != j {
                assert_eq!(a.unify(b), Err("cannot unify".to_string()));
            }
        }
    }
}

#[test]
fn integer_never_widens_to_bytes() {
    assert!(T::Integer(8).unify(&T::Bytes(64)).is_err());
    assert!(T::Bytes(64).unify(&T::Integer(8)).is_err());
    assert!(T::Integer(8).unify(&T::String).is_err());
}

#[test]
fn unify_is_commutative_and_associative_on_samples() {
    let widths = [0usize, 1, 7, 8, 9, 64, 200];
    for a in widths {
        for b in widths {
            for c in widths {
                let (x, y, z) = (T::Integer(a), T::Integer(b), T::Integer(c));
                assert_eq!(x.unify(&y), y.unify(&x));
                let left = x.unify(&y).unwrap().unify(&z);
                let right = x.unify(&y.unify(&z).unwrap());
                assert_eq!(left, right);
                assert_eq!(left, Ok(T::Integer(a.max(b).max(c))));
            }
        }
    }
}
