use arith::interpretator::run;
use arith::repl::reply;

#[test]
fn reply_shows_result_test() {
    assert_eq!(reply(Ok("1\n0".to_string())), "1\n0");
    assert_eq!(reply(Ok(String::new())), "");
    assert_eq!(reply(run("if true then succ zero else zero")), "1");
}

#[test]
fn reply_shows_error_test() {
    assert_eq!(reply(Err("Invalid program!".to_string())), "Error: Invalid program!");
    assert_eq!(reply(run("succ 2")), "Error: Invalid character : 2");
    assert_eq!(reply(run("then")), "Error: Unknown token : Then");
}
