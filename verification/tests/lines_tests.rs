use resource_guard::hello_line;
use resource_guard::lines::push_decimal;

#[test]
fn hello_line_single_digit() {
    assert_eq!(hello_line(3), b"Hello from thread 3\n".to_vec());
}

#[test]
fn hello_line_zero() {
    assert_eq!(hello_line(0), b"Hello from thread 0\n".to_vec());
}

#[test]
fn hello_line_many_digits() {
    assert_eq!(hello_line(12345), b"Hello from thread 12345\n".to_vec());
}

#[test]
fn hello_line_largest() {
    assert_eq!(
        hello_line(u64::MAX),
        b"Hello from thread 18446744073709551615\n".to_vec()
    );
}

#[test]
fn hello_lines_distinct() {
    for i in 0..20u64 {
        for j in 0..20u64 {
            if i != j {
                assert_ne!(hello_line(i), hello_line(j));
            }
        }
    }
}

#[test]
fn push_decimal_appends() {
    let mut buf = b"index ".to_vec();
    push_decimal(&mut buf, 907);
    assert_eq!(buf, b"index 907".to_vec());
}
