//! Paths of the host (local) and of the machine that runs the tests (remote).
//! Paths are joined as `Path::join` joins them on Unix.

use vstd::prelude::*;

use crate::text::push_str;

verus! {

/// `base` joined with `p`: `p` itself when it is absolute or `base` is
/// empty, else the two with one `/` between them.
pub open spec fn join_spec(base: Seq<char>, p: Seq<char>) -> Seq<char> {
    if (p.len() > 0 && p[0] == '/') || base.len() == 0 {
        p
    } else if base.last() == '/' {
        base + p
    } else {
        base.push('/') + p
    }
}

/// The path of a temporary file or directory named after `name`.
pub open spec fn tmp_spec(name: Seq<char>) -> Seq<char> {
    "/tmp/diffuzzer-"@ + name
}

fn join_str(base: &str, p: &str) -> (r: String)
    ensures
        r@ == join_spec(base@, p@),
{
    let pc = crate::text::to_chars(p);
    let bc = crate::text::to_chars(base);
    let mut r = String::new();
    if (pc.len() > 0 && pc[0] == '/') || bc.len() == 0 {
        push_str(&mut r, p);
    } else if bc[bc.len() - 1] == '/' {
        push_str(&mut r, base);
        push_str(&mut r, p);
    } else {
        push_str(&mut r, base);
        crate::text::push_char(&mut r, '/');
        push_str(&mut r, p);
    }
    r
}

fn tmp_str(name: &str) -> (r: String)
    ensures
        r@ == tmp_spec(name@),
{
    let mut r = String::new();
    push_str(&mut r, "/tmp/diffuzzer-");
    push_str(&mut r, name);
    r
}

/// A path that always locates a file on the host (local) machine.
pub struct LocalPath {
    pub base: String,
}

impl View for LocalPath {
    type V = Seq<char>;

    open spec fn view(&self) -> Seq<char> {
        self.base@
    }
}

impl LocalPath {
    pub fn new(path: &str) -> (r: Self)
        ensures
            r@ == path@,
    {
        LocalPath { base: path.to_owned() }
    }

    /// A temporary path, named with the fuzzer's prefix.
    pub fn new_tmp(name: &str) -> (r: Self)
        ensures
            r@ == tmp_spec(name@),
    {
        LocalPath { base: tmp_str(name) }
    }

    pub fn join(&self, path: &str) -> (r: Self)
        ensures
            r@ == join_spec(self@, path@),
    {
        LocalPath { base: join_str(self.base.as_str(), path) }
    }

    /// The path as text.
    pub fn to_string(&self) -> (r: String)
        ensures
            r@ == self@,
    {
        self.base.clone()
    }
}

impl Clone for LocalPath {
    fn clone(&self) -> (r: Self)
        ensures
            r@ == self@,
    {
        LocalPath { base: self.base.clone() }
    }
}

/// A path on the machine where tests are compiled and run (the host when
/// QEMU is not used).
pub struct RemotePath {
    pub base: String,
}

impl View for RemotePath {
    type V = Seq<char>;

    open spec fn view(&self) -> Seq<char> {
        self.base@
    }
}

impl RemotePath {
    pub fn new(path: &str) -> (r: Self)
        ensures
            r@ == path@,
    {
        RemotePath { base: path.to_owned() }
    }

    /// A temporary path, named with the fuzzer's prefix.
    pub fn new_tmp(name: &str) -> (r: Self)
        ensures
            r@ == tmp_spec(name@),
    {
        RemotePath { base: tmp_str(name) }
    }

    pub fn join(&self, path: &str) -> (r: Self)
        ensures
            r@ == join_spec(self@, path@),
    {
        RemotePath { base: join_str(self.base.as_str(), path) }
    }

    /// The path as text.
    pub fn to_string(&self) -> (r: String)
        ensures
            r@ == self@,
    {
        self.base.clone()
    }
}

impl Clone for RemotePath {
    fn clone(&self) -> (r: Self)
        ensures
            r@ == self@,
    {
        RemotePath { base: self.base.clone() }
    }
}

} // verus!
