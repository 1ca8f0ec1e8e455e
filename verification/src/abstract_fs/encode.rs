//! Encoding a workload as a C test that the executor runs.

use vstd::prelude::*;

use super::flags::{flag_name, Mode, ModeFlag};
use super::node::FileDescriptorIndex;
use super::operation::{OpView, Operation};
use super::workload::Workload;
use crate::text::{dec, push_str, push_u64};

verus! {

/// The name of the C variable that holds descriptor `des`.
pub open spec fn descriptor_var(des: FileDescriptorIndex) -> Seq<char> {
    "fd_"@ + dec(des.0 as nat)
}

/// The flags joined by ` | `.
pub open spec fn flags_text(m: Seq<ModeFlag>) -> Seq<char>
    decreases m.len(),
{
    if m.len() <= 1 {
        if m.len() == 1 {
            flag_name(m[0])
        } else {
            Seq::empty()
        }
    } else {
        flags_text(m.drop_last()) + " | "@ + flag_name(m.last())
    }
}

/// A mode as a C expression: `0` for no flag, else the flags or-ed.
pub open spec fn mode_text(m: Seq<ModeFlag>) -> Seq<char> {
    if m.len() == 0 {
        "0"@
    } else {
        flags_text(m)
    }
}

/// The C statement for one operation.
pub open spec fn op_line(op: OpView) -> Seq<char> {
    match op {
        OpView::Create { path, mode } => "do_create(\""@ + path + "\", "@ + mode_text(mode) + ");\n"@,
        OpView::MkDir { path, mode } => "do_mkdir(\""@ + path + "\", "@ + mode_text(mode) + ");\n"@,
        OpView::Remove { path } => "do_remove(\""@ + path + "\");\n"@,
        OpView::Hardlink { old_path, new_path } => "do_hardlink(\""@ + old_path + "\", \""@ + new_path
            + "\");\n"@,
        OpView::Rename { old_path, new_path } => "do_rename(\""@ + old_path + "\", \""@ + new_path
            + "\");\n"@,
        OpView::Open { path, des } => descriptor_var(des) + " = do_open(\""@ + path + "\");\n"@,
        OpView::Close { des } => "do_close("@ + descriptor_var(des) + ");\n"@,
        OpView::Read { des, size } => "do_read("@ + descriptor_var(des) + ", "@ + dec(size as nat)
            + ");\n"@,
        OpView::Write { des, src_offset, size } => "do_write("@ + descriptor_var(des) + ", "@ + dec(
            src_offset as nat,
        ) + ", "@ + dec(size as nat) + ");\n"@,
        OpView::FSync { des } => "do_fsync("@ + descriptor_var(des) + ");\n"@,
        OpView::Symlink { target, linkpath } => "do_symlink(\""@ + target + "\", \""@ + linkpath
            + "\");\n"@,
    }
}

/// The C statements for the operations, in order.
pub open spec fn ops_lines(ops: Seq<OpView>) -> Seq<char>
    decreases ops.len(),
{
    if ops.len() == 0 {
        Seq::empty()
    } else {
        ops_lines(ops.drop_last()) + op_line(ops.last())
    }
}

/// One more than the largest descriptor that an `Open` assigns (0 if none).
pub open spec fn descriptors_needed(ops: Seq<OpView>) -> nat
    decreases ops.len(),
{
    if ops.len() == 0 {
        0
    } else {
        let n = descriptors_needed(ops.drop_last());
        match ops.last() {
            OpView::Open { des, .. } => if des.0 + 1 > n {
                (des.0 + 1) as nat
            } else {
                n
            },
            _ => n,
        }
    }
}

/// `fd_0, fd_1, ..., fd_{n-1}`.
pub open spec fn descriptor_vars(n: nat) -> Seq<char>
    decreases n,
{
    if n <= 1 {
        if n == 1 {
            "fd_"@ + dec(0)
        } else {
            Seq::empty()
        }
    } else {
        descriptor_vars((n - 1) as nat) + ", "@ + "fd_"@ + dec((n - 1) as nat)
    }
}

/// The declaration of the descriptor variables.
pub open spec fn descriptors_decl(n: nat) -> Seq<char> {
    if n > 0 {
        "\nint "@ + descriptor_vars(n) + ";\n\n"@
    } else {
        "\n// no descriptors\n\n"@
    }
}

/// The C test of a workload.
pub open spec fn encode_c_spec(ops: Seq<OpView>) -> Seq<char> {
    "#include \"executor.h\"\n"@ + descriptors_decl(descriptors_needed(ops)) + "void test_workload()\n"@
        + "{\n"@ + ops_lines(ops) + "}"@
}

/// Whether `item` is one of the comma-separated entries of the list `v`.
pub open spec fn listed(v: Seq<char>, item: Seq<char>) -> bool {
    exists|a: Seq<char>, b: Seq<char>|
        v == a + item + b && (a.len() == 0 || exists|a0: Seq<char>| a == a0 + ", "@) && (b.len() == 0 || exists|
            b0: Seq<char>,
        | b == ", "@ + b0)
}

proof fn lemma_vars_list(n: nat, des: FileDescriptorIndex)
    requires
        des.0 < n,
    ensures
        listed(descriptor_vars(n), descriptor_var(des)),
    decreases n,
{
    let k = des.0 as nat;
    let item = descriptor_var(des);
    if n == 1 {
        let e = Seq::<char>::empty();
        assert(descriptor_vars(n) == e + item + e);
    } else if k == n - 1 {
        let a = descriptor_vars((n - 1) as nat) + ", "@;
        let e = Seq::<char>::empty();
        assert(descriptor_vars(n) =~= a + item + e);
        assert(a == descriptor_vars((n - 1) as nat) + ", "@);
    } else {
        lemma_vars_list((n - 1) as nat, des);
        let v0 = descriptor_vars((n - 1) as nat);
        let (a, b) = choose|a: Seq<char>, b: Seq<char>|
            v0 == a + item + b && (a.len() == 0 || exists|a0: Seq<char>| a == a0 + ", "@) && (b.len() == 0 || exists|
                b0: Seq<char>,
            | b == ", "@ + b0);
        let tail = "fd_"@ + dec((n - 1) as nat);
        let b2 = b + ", "@ + tail;
        assert(descriptor_vars(n) =~= a + item + b2);
        if b.len() == 0 {
            assert(b2 =~= ", "@ + tail);
        } else {
            let b0 = choose|b0: Seq<char>| b == ", "@ + b0;
            assert(b2 =~= ", "@ + (b0 + ", "@ + tail));
        }
    }
}

proof fn lemma_needed_covers(ops: Seq<OpView>, i: int)
    requires
        0 <= i < ops.len(),
        ops[i] is Open,
    ensures
        ops[i]->Open_des.0 < descriptors_needed(ops),
    decreases ops.len(),
{
    if i < ops.len() - 1 {
        assert(ops.drop_last()[i] == ops[i]);
        lemma_needed_covers(ops.drop_last(), i);
    }
}

/// Every descriptor that the test opens is declared: when some `Open`
/// assigns descriptor `d`, the C text starts with the include line and a
/// declaration `int ...;` whose list names `fd_d`, before the test function.
pub proof fn lemma_encoded_descriptors_declared(ops: Seq<OpView>, i: int)
    requires
        0 <= i < ops.len(),
        ops[i] is Open,
    ensures
        exists|v: Seq<char>|
            #![trigger listed(v, descriptor_var(ops[i]->Open_des))]
            listed(v, descriptor_var(ops[i]->Open_des)) && encode_c_spec(ops) == "#include \"executor.h\"\n"@
                + "\nint "@ + v + ";\n\n"@ + "void test_workload()\n"@ + "{\n"@ + ops_lines(ops) + "}"@,
{
    let d = ops[i]->Open_des;
    lemma_needed_covers(ops, i);
    let n = descriptors_needed(ops);
    lemma_vars_list(n, d);
    let v = descriptor_vars(n);
    assert(encode_c_spec(ops) =~= "#include \"executor.h\"\n"@ + "\nint "@ + v + ";\n\n"@ + "void test_workload()\n"@
        + "{\n"@ + ops_lines(ops) + "}"@);
}

/// No `Open` assigns the largest descriptor (whose successor would overflow).
pub open spec fn descriptors_fit(ops: Seq<OpView>) -> bool {
    forall|i: int| 0 <= i < ops.len() ==> (#[trigger] ops[i] matches OpView::Open { des, .. } ==> des.0 < usize::MAX)
}

/// The name of the C variable that holds descriptor `des`.
fn descriptor_to_var(des: &FileDescriptorIndex) -> (r: String)
    ensures
        r@ == descriptor_var(*des),
{
    let mut s = String::new();
    push_str(&mut s, "fd_");
    push_u64(&mut s, des.0 as u64);
    assert(s@ =~= descriptor_var(*des));
    s
}

/// A mode as a C expression: `0` for no flag, else the flags joined by ` | `.
fn encode_mode(mode: &Mode) -> (r: String)
    ensures
        r@ == mode_text(mode@),
{
    let mut s = String::new();
    if mode.len() == 0 {
        push_str(&mut s, "0");
        assert(s@ =~= mode_text(mode@));
    } else {
        push_str(&mut s, mode[0].name());
        let mut i: usize = 1;
        assert(mode@.take(1) =~= seq![mode@[0]]);
        assert(flags_text(mode@.take(1)) == flag_name(mode@[0]));
        assert(s@ =~= flags_text(mode@.take(1)));
        while i < mode.len()
            invariant
                1 <= i <= mode@.len(),
                s@ == flags_text(mode@.take(i as int)),
            decreases mode@.len() - i,
        {
            push_str(&mut s, " | ");
            push_str(&mut s, mode[i].name());
            assert(mode@.take(i + 1).drop_last() =~= mode@.take(i as int));
            assert(s@ =~= flags_text(mode@.take(i + 1)));
            i = i + 1;
        }
        assert(mode@.take(i as int) =~= mode@);
    }
    s
}

/// Appends the C statement for one operation.
fn push_op_line(s: &mut String, op: &Operation)
    ensures
        final(s)@ == old(s)@ + op_line(op@),
{
    let ghost start = s@;
    match op {
        Operation::Create { path, mode } => {
            push_str(s, "do_create(\"");
            push_str(s, path.as_str());
            push_str(s, "\", ");
            push_str(s, encode_mode(mode).as_str());
            push_str(s, ");\n");
        },
        Operation::MkDir { path, mode } => {
            push_str(s, "do_mkdir(\"");
            push_str(s, path.as_str());
            push_str(s, "\", ");
            push_str(s, encode_mode(mode).as_str());
            push_str(s, ");\n");
        },
        Operation::Remove { path } => {
            push_str(s, "do_remove(\"");
            push_str(s, path.as_str());
            push_str(s, "\");\n");
        },
        Operation::Hardlink { old_path, new_path } => {
            push_str(s, "do_hardlink(\"");
            push_str(s, old_path.as_str());
            push_str(s, "\", \"");
            push_str(s, new_path.as_str());
            push_str(s, "\");\n");
        },
        Operation::Rename { old_path, new_path } => {
            push_str(s, "do_rename(\"");
            push_str(s, old_path.as_str());
            push_str(s, "\", \"");
            push_str(s, new_path.as_str());
            push_str(s, "\");\n");
        },
        Operation::Open { path, des } => {
            push_str(s, descriptor_to_var(des).as_str());
            push_str(s, " = do_open(\"");
            push_str(s, path.as_str());
            push_str(s, "\");\n");
        },
        Operation::Close { des } => {
            push_str(s, "do_close(");
            push_str(s, descriptor_to_var(des).as_str());
            push_str(s, ");\n");
        },
        Operation::Read { des, size } => {
            push_str(s, "do_read(");
            push_str(s, descriptor_to_var(des).as_str());
            push_str(s, ", ");
            push_u64(s, *size);
            push_str(s, ");\n");
        },
        Operation::Write { des, src_offset, size } => {
            push_str(s, "do_write(");
            push_str(s, descriptor_to_var(des).as_str());
            push_str(s, ", ");
            push_u64(s, *src_offset);
            push_str(s, ", ");
            push_u64(s, *size);
            push_str(s, ");\n");
        },
        Operation::FSync { des } => {
            push_str(s, "do_fsync(");
            push_str(s, descriptor_to_var(des).as_str());
            push_str(s, ");\n");
        },
        Operation::Symlink { target, linkpath } => {
            push_str(s, "do_symlink(\"");
            push_str(s, target.as_str());
            push_str(s, "\", \"");
            push_str(s, linkpath.as_str());
            push_str(s, "\");\n");
        },
    }
    assert(s@ =~= start + op_line(op@));
}

impl Workload {
    /// The C code of the workload, to be built with the executor and run.
    pub fn encode_c(&self) -> (r: String)
        requires
            descriptors_fit(self@),
        ensures
            r@ == encode_c_spec(self@),
    {
        let mut result = String::new();
        push_str(&mut result, "#include \"executor.h\"\n");
        let mut descriptors_n: usize = 0;
        let mut i: usize = 0;
        while i < self.ops.len()
            invariant
                i <= self@.len(),
                self@.len() == self.ops@.len(),
                descriptors_fit(self@),
                descriptors_n == descriptors_needed(self@.take(i as int)),
            decreases self.ops@.len() - i,
        {
            assert(self@.take(i + 1).drop_last() =~= self@.take(i as int));
            assert(self@.take(i + 1).last() == self@[i as int]);
            match &self.ops[i] {
                Operation::Open { des, .. } => {
                    assert(self@[i as int] matches OpView::Open { des: d, .. } && d == *des);
                    if des.0 + 1 > descriptors_n {
                        descriptors_n = des.0 + 1;
                    }
                },
                _ => {},
            }
            i = i + 1;
        }
        assert(self@.take(i as int) =~= self@);
        if descriptors_n > 0 {
            push_str(&mut result, "\nint ");
            let ghost before = result@;
            let mut k: usize = 0;
            while k < descriptors_n
                invariant
                    k <= descriptors_n,
                    result@ == before + descriptor_vars(k as nat),
                decreases descriptors_n - k,
            {
                if k > 0 {
                    push_str(&mut result, ", ");
                }
                push_str(&mut result, "fd_");
                push_u64(&mut result, k as u64);
                proof {
                    if k == 0 {
                        assert(descriptor_vars(1) == "fd_"@ + dec(0));
                    }
                }
                assert(result@ =~= before + descriptor_vars((k + 1) as nat));
                k = k + 1;
            }
            push_str(&mut result, ";\n\n");
        } else {
            push_str(&mut result, "\n// no descriptors\n\n");
        }
        push_str(&mut result, "void test_workload()\n");
        push_str(&mut result, "{\n");
        let ghost body_start = result@;
        let mut j: usize = 0;
        while j < self.ops.len()
            invariant
                j <= self@.len(),
                self@.len() == self.ops@.len(),
                result@ == body_start + ops_lines(self@.take(j as int)),
            decreases self.ops@.len() - j,
        {
            assert(self@.take(j + 1).drop_last() =~= self@.take(j as int));
            assert(self@.take(j + 1).last() == self.ops@[j as int]@);
            push_op_line(&mut result, &self.ops[j]);
            assert(result@ =~= body_start + ops_lines(self@.take(j + 1)));
            j = j + 1;
        }
        assert(self@.take(j as int) =~= self@);
        push_str(&mut result, "}");
        assert(result@ =~= encode_c_spec(self@));
        result
    }
}

} // verus!
