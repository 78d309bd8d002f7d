use vstd::prelude::*;

verus! {

/// The page served at the root of the message board.
pub fn board_page() -> (page: String)
    ensures
        page@ == "<h1>Hello world!</h1>"@,
{
    String::from_str("<h1>Hello world!</h1>")
}

/// The answer to any other path: status 404 with a short text.
pub fn board_not_found() -> (r: (u16, String))
    ensures
        r.0 == 404,
        r.1@ == "There is nothing to hide..."@,
{
    (404, String::from_str("There is nothing to hide..."))
}

} // verus!
