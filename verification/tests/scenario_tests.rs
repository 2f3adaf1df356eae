use resource_guard::driver::run_greeting_tasks;
use resource_guard::hello_line;
use resource_guard::ResourceGuard;

fn run_scenario(order: &[u64]) -> Vec<u8> {
    // A guard over an in-memory buffer standing in for the output
    // stream; each task appends its own greeting line through the
    // guard's access operation.
    let mut g = ResourceGuard::new(Vec::<u8>::new());
    for &i in order {
        g.with_resource(move |mut buf: Vec<u8>| {
            buf.extend_from_slice(&hello_line(i));
            (buf, ())
        });
    }
    g.with_resource(|buf: Vec<u8>| {
        let snapshot = buf.clone();
        (buf, snapshot)
    })
}

fn assert_nine_complete_lines(buffer: Vec<u8>) {
    let text = String::from_utf8(buffer).expect("buffer is valid text");
    let lines: Vec<&str> = text.lines().collect();
    assert_eq!(lines.len(), 9);
    let mut indices = Vec::new();
    for line in lines {
        let rest = line
            .strip_prefix("Hello from thread ")
            .expect("line is complete and uncorrupted");
        let i: u64 = rest.parse().expect("line carries a task index");
        indices.push(i);
    }
    indices.sort();
    assert_eq!(indices, vec![0, 1, 2, 3, 4, 5, 6, 7, 8]);
}

#[test]
fn nine_tasks_in_order() {
    assert_nine_complete_lines(run_scenario(&[0, 1, 2, 3, 4, 5, 6, 7, 8]));
}

#[test]
fn driver_runs_nine_tasks() {
    let buf = run_greeting_tasks(9);
    let mut expected = Vec::new();
    for i in 0..9u64 {
        expected.extend_from_slice(&hello_line(i));
    }
    assert_eq!(buf, expected);
    assert_nine_complete_lines(buf);
}

#[test]
fn driver_runs_no_tasks() {
    assert_eq!(run_greeting_tasks(0), Vec::<u8>::new());
}

#[test]
fn nine_tasks_order_unconstrained() {
    // Completion order among tasks is unconstrained; every order yields
    // the same nine complete lines, each index exactly once.
    assert_nine_complete_lines(run_scenario(&[4, 0, 8, 2, 6, 1, 7, 3, 5]));
    assert_nine_complete_lines(run_scenario(&[8, 7, 6, 5, 4, 3, 2, 1, 0]));
}
