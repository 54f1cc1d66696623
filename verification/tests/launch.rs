use antarian_chess::launch::delete_old_target;

fn args(list: &[&str]) -> Vec<String> {
    list.iter().map(|s| s.to_string()).collect()
}

#[test]
fn quoted_path() {
    let a = args(&["antarian-chess", "--delete-old=\"C:\\Users\\me\\Downloads\\old.exe\""]);
    assert_eq!(delete_old_target(&a), Some("C:\\Users\\me\\Downloads\\old.exe".to_string()));
}

#[test]
fn bare_path() {
    let a = args(&["antarian-chess", "--delete-old=/tmp/old binary"]);
    assert_eq!(delete_old_target(&a), Some("/tmp/old binary".to_string()));
}

#[test]
fn no_flag() {
    assert_eq!(delete_old_target(&args(&["antarian-chess", "--verbose"])), None);
    assert_eq!(delete_old_target(&Vec::new()), None);
}

#[test]
fn an_unclosed_quote_is_passed_over() {
    let a = args(&["--delete-old=\"unterminated", "--delete-old=/second"]);
    assert_eq!(delete_old_target(&a), Some("/second".to_string()));
    assert_eq!(delete_old_target(&args(&["--delete-old=\""])), None);
}

#[test]
fn the_first_flag_wins() {
    let a = args(&["--delete-old=\"é/first\"", "--delete-old=/second"]);
    assert_eq!(delete_old_target(&a), Some("é/first".to_string()));
}
