use vstd::prelude::*;

verus! {

/// A decoded client command. Arguments are opaque byte strings, never
/// pre-interpreted as text. Unknown command names decode as
/// `Unrecognized` so the dispatcher can answer uniformly.
pub enum Command {
    Put { key: Vec<u8>, value: Vec<u8> },
    Get { key: Vec<u8> },
    Del { key: Vec<u8> },
    Exists { key: Vec<u8> },
    Quit,
    Unrecognized { name: Vec<u8> },
}

/// The mathematical value of a `Command`: the same variants over byte
/// sequences.
pub ghost enum CommandView {
    Put { key: Seq<u8>, value: Seq<u8> },
    Get { key: Seq<u8> },
    Del { key: Seq<u8> },
    Exists { key: Seq<u8> },
    Quit,
    Unrecognized { name: Seq<u8> },
}

impl View for Command {
    type V = CommandView;

    open spec fn view(&self) -> CommandView {
        match self {
            Command::Put { key, value } => (CommandView::Put { key: key@, value: value@ }),
            Command::Get { key } => (CommandView::Get { key: key@ }),
            Command::Del { key } => (CommandView::Del { key: key@ }),
            Command::Exists { key } => (CommandView::Exists { key: key@ }),
            Command::Quit => CommandView::Quit,
            Command::Unrecognized { name } => (CommandView::Unrecognized { name: name@ }),
        }
    }
}

/// The bytes of the command name `SET`.
pub open spec fn name_set() -> Seq<u8> {
    seq![83u8, 69u8, 84u8]
}

/// The bytes of the command name `GET`.
pub open spec fn name_get() -> Seq<u8> {
    seq![71u8, 69u8, 84u8]
}

/// The bytes of the command name `DEL`.
pub open spec fn name_del() -> Seq<u8> {
    seq![68u8, 69u8, 76u8]
}

/// The bytes of the command name `EXISTS`.
pub open spec fn name_exists() -> Seq<u8> {
    seq![69u8, 88u8, 73u8, 83u8, 84u8, 83u8]
}

/// The bytes of the command name `QUIT`.
pub open spec fn name_quit() -> Seq<u8> {
    seq![81u8, 85u8, 73u8, 84u8]
}

/// The name `SET` as an owned byte string.
pub fn set_name() -> (r: Vec<u8>)
    ensures
        r@ == name_set(),
{
    let mut v: Vec<u8> = Vec::new();
    v.push(83);
    v.push(69);
    v.push(84);
    assert(v@ =~= name_set());
    v
}

/// The name `GET` as an owned byte string.
pub fn get_name() -> (r: Vec<u8>)
    ensures
        r@ == name_get(),
{
    let mut v: Vec<u8> = Vec::new();
    v.push(71);
    v.push(69);
    v.push(84);
    assert(v@ =~= name_get());
    v
}

/// The name `DEL` as an owned byte string.
pub fn del_name() -> (r: Vec<u8>)
    ensures
        r@ == name_del(),
{
    let mut v: Vec<u8> = Vec::new();
    v.push(68);
    v.push(69);
    v.push(76);
    assert(v@ =~= name_del());
    v
}

/// The name `EXISTS` as an owned byte string.
pub fn exists_name() -> (r: Vec<u8>)
    ensures
        r@ == name_exists(),
{
    let mut v: Vec<u8> = Vec::new();
    v.push(69);
    v.push(88);
    v.push(73);
    v.push(83);
    v.push(84);
    v.push(83);
    assert(v@ =~= name_exists());
    v
}

/// The name `QUIT` as an owned byte string.
pub fn quit_name() -> (r: Vec<u8>)
    ensures
        r@ == name_quit(),
{
    let mut v: Vec<u8> = Vec::new();
    v.push(81);
    v.push(85);
    v.push(73);
    v.push(84);
    assert(v@ =~= name_quit());
    v
}

} // verus!
