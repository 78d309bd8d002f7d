use ccb_labs::message_board::{board_not_found, board_page};

#[test]
fn board_pages() {
    assert_eq!(board_page(), "<h1>Hello world!</h1>");
    assert_eq!(board_not_found(), (404, "There is nothing to hide...".to_string()));
}
