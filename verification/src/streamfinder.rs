//! Finders of the live stream behind a room address, one per site.
pub mod bilibili;
pub mod cc;
pub mod twitch;
pub mod youtube;

use vstd::prelude::*;

verus! {

/// The view of query parameters.
pub open spec fn params_view(ps: Seq<(String, String)>) -> Seq<(Seq<char>, Seq<char>)> {
    ps.map_values(|p: (String, String)| (p.0@, p.1@))
}

/// The title `"{a} - {b}"`.
pub open spec fn dash_title(a: Seq<char>, b: Seq<char>) -> Seq<char> {
    a + " - "@ + b
}

/// `"{a} - {b}"`.
pub fn join_title(a: &str, b: &str) -> (res: String)
    ensures
        res@ == dash_title(a@, b@),
{
    let mut t = a.to_owned();
    t.append(" - ");
    t.append(b);
    t
}

/// The parameter `(name, value)`.
pub fn param(name: &str, value: &str) -> (res: (String, String))
    ensures
        res.0@ == name@,
        res.1@ == value@,
{
    (name.to_owned(), value.to_owned())
}

} // verus!
