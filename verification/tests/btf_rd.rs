use bpftrace_ls::btf_rd::{
    btf_iterate_over_names_chain, btf_module_path, btf_resolve_func, btf_resolve_type,
    btf_variable_name, chain_str_to_tokens, Btf, BtfError, BtfSplit, BtfVariable,
};
use std::sync::Arc;

const KIND_INT: u32 = 1;
const KIND_PTR: u32 = 2;
const KIND_ARRAY: u32 = 3;
const KIND_STRUCT: u32 = 4;
const KIND_UNION: u32 = 5;
const KIND_ENUM: u32 = 6;
const KIND_FWD: u32 = 7;
const KIND_TYPEDEF: u32 = 8;
const KIND_VOLATILE: u32 = 9;
const KIND_CONST: u32 = 10;
const KIND_FUNC: u32 = 12;
const KIND_FUNC_PROTO: u32 = 13;
const KIND_TYPE_TAG: u32 = 18;

/// Writes a small BTF blob by hand: type records, then the string section.
struct BtfWriter {
    types: Vec<u8>,
    strings: Vec<u8>,
    next_id: u32,
    str_base: u32,
}

impl BtfWriter {
    fn new(first_id: u32, str_base: u32) -> Self {
        BtfWriter { types: Vec::new(), strings: vec![0], next_id: first_id, str_base }
    }

    fn name(&mut self, s: &str) -> u32 {
        let off = self.strings.len() as u32 + self.str_base;
        self.strings.extend_from_slice(s.as_bytes());
        self.strings.push(0);
        off
    }

    fn word(&mut self, w: u32) {
        self.types.extend_from_slice(&w.to_le_bytes());
    }

    fn add(&mut self, name: &str, kind: u32, flag: u32, vlen: u32, size_type: u32, extra: &[u32]) -> u32 {
        let name_off = if name.is_empty() { 0 } else { self.name(name) };
        self.word(name_off);
        self.word((flag << 31) | (kind << 24) | vlen);
        self.word(size_type);
        for w in extra {
            self.word(*w);
        }
        let id = self.next_id;
        self.next_id += 1;
        id
    }

    /// A record whose trailing entries name other strings: `(name, type)` pairs followed by
    /// `tail` words each.
    fn add_named(&mut self, name: &str, kind: u32, size_type: u32, entries: &[(&str, u32)], tail: usize) -> u32 {
        let mut extra = Vec::new();
        for (n, t) in entries {
            extra.push(if n.is_empty() { 0 } else { self.name(n) });
            extra.push(*t);
            for _ in 0..tail {
                extra.push(0);
            }
        }
        self.add(name, kind, 0, entries.len() as u32, size_type, &extra)
    }

    fn finish(&self) -> Vec<u8> {
        let mut out = Vec::new();
        out.extend_from_slice(&0xeb9fu16.to_le_bytes());
        out.push(1);
        out.push(0);
        out.extend_from_slice(&24u32.to_le_bytes());
        out.extend_from_slice(&0u32.to_le_bytes());
        out.extend_from_slice(&(self.types.len() as u32).to_le_bytes());
        out.extend_from_slice(&(self.types.len() as u32).to_le_bytes());
        out.extend_from_slice(&(self.strings.len() as u32).to_le_bytes());
        out.extend_from_slice(&self.types);
        out.extend_from_slice(&self.strings);
        out
    }
}

/// A kernel-like BTF: `alloc_pid(struct pid_namespace *ns, pid_t *set_tid, size_t set_tid_size)`
/// returning `struct pid *`, and a few more types.
fn kernel_btf() -> Btf {
    let mut w = BtfWriter::new(1, 0);
    let int = w.add("int", KIND_INT, 0, 0, 4, &[32]); // 1
    let pid = w.add_named("pid", KIND_STRUCT, 4, &[("nr", int)], 1); // 2
    let pid_ptr = w.add("", KIND_PTR, 0, 0, pid, &[]); // 3
    // 4: struct pid_namespace { int level; struct pid_namespace *parent; union u un; }
    let ns = w.add_named("pid_namespace", KIND_STRUCT, 24, &[("level", int), ("parent", 5), ("un", 15)], 1);
    let ns_ptr = w.add("", KIND_PTR, 0, 0, ns, &[]); // 5
    let pid_t = w.add("pid_t", KIND_TYPEDEF, 0, 0, int, &[]); // 6
    let pid_t_ptr = w.add("", KIND_PTR, 0, 0, pid_t, &[]); // 7
    let size_t = w.add("size_t", KIND_TYPEDEF, 0, 0, int, &[]); // 8
    let proto = w.add_named(
        "",
        KIND_FUNC_PROTO,
        pid_ptr,
        &[("ns", ns_ptr), ("set_tid", pid_t_ptr), ("set_tid_size", size_t)],
        0,
    ); // 9
    let func = w.add("alloc_pid", KIND_FUNC, 0, 0, proto, &[]); // 10
    assert_eq!(func, 10);
    let const_ptr = w.add("", KIND_CONST, 0, 0, ns_ptr, &[]); // 11
    let const_struct = w.add("", KIND_CONST, 0, 0, ns, &[]); // 12
    let array = w.add("", KIND_ARRAY, 0, 0, 0, &[int, int, 10]); // 13
    let volatile_int = w.add("", KIND_VOLATILE, 0, 0, int, &[]); // 14
    let union = w.add_named("u", KIND_UNION, 4, &[("a", int), ("b", pid_t)], 1); // 15
    let fwd = w.add("fwdu", KIND_FWD, 1, 0, 0, &[]); // 16
    let enm = w.add("e", KIND_ENUM, 0, 0, 4, &[]); // 17
    let proto_ptr = w.add("", KIND_PTR, 0, 0, proto, &[]); // 18
    let tag = w.add("user", KIND_TYPE_TAG, 0, 0, ns_ptr, &[]); // 19
    let void_ptr = w.add("", KIND_PTR, 0, 0, 0, &[]); // 20
    let self_ptr = w.add("", KIND_PTR, 0, 0, 21, &[]); // 21: points to itself
    let arr_struct = w.add("", KIND_ARRAY, 0, 0, 0, &[const_ptr, int, 2]); // 22
    let _ = (const_struct, array, volatile_int, union, fwd, enm, proto_ptr, tag, void_ptr, self_ptr, arr_struct);
    BtfSplit::build(None, w.finish()).unwrap()
}

fn var(btf: &Btf, name: &str, type_id: u32) -> (String, String) {
    let n = btf_variable_name(btf, &BtfVariable { name: name.to_string(), type_id }).unwrap();
    (n.type_str, n.full_name)
}

#[test]
fn test_chain_str_to_tokens() {
    assert!(chain_str_to_tokens("args") == vec!["args"]);
    assert!(chain_str_to_tokens("args.") == vec!["args", "."]);
    assert!(chain_str_to_tokens("xxx->yyy") == vec!["xxx", "->", "yyy"]);
    assert!(chain_str_to_tokens("a.b.c.d") == vec!["a", ".", "b", ".", "c", ".", "d"]);
    assert!(
        chain_str_to_tokens("args.f1.f2->f3") == vec!["args", ".", "f1", ".", "f2", "->", "f3"]
    );
}

#[test]
fn chain_tokens_edge_cases() {
    // A single character is no token: the last name is taken only when its last character is
    // not the chain's first.
    assert!(chain_str_to_tokens("a").is_empty());
    assert!(chain_str_to_tokens("").is_empty());
    assert!(chain_str_to_tokens(".a") == vec!["", ".", "a"]);
    assert!(chain_str_to_tokens("a->") == vec!["a", "->"]);
    assert!(chain_str_to_tokens("retval()") == vec!["retval()"]);
}

#[test]
fn build_counts_types_and_functions() {
    let btf = kernel_btf();
    assert_eq!(btf.number_of_types(), 22);
    assert_eq!(btf.number_of_functions(), 1);
    assert_eq!(btf.first_type_id(), 1);
}

#[test]
fn build_rejects_bad_headers() {
    let mut w = BtfWriter::new(1, 0);
    w.add("int", KIND_INT, 0, 0, 4, &[32]);
    let good = w.finish();

    let mut swapped = good.clone();
    swapped[0] = 0xeb;
    swapped[1] = 0x9f;
    assert!(matches!(BtfSplit::build(None, swapped), Err(BtfError::NotNativeEndian)));

    let mut bad = good.clone();
    bad[0] = 0x12;
    assert!(matches!(BtfSplit::build(None, bad), Err(BtfError::BadMagic(_))));

    assert!(matches!(BtfSplit::build(None, good[..10].to_vec()), Err(BtfError::UnexpectedEnd)));
    assert!(matches!(BtfSplit::build(None, good[..30].to_vec()), Err(BtfError::UnexpectedEnd)));

    let mut unknown = BtfWriter::new(1, 0);
    unknown.add("x", 25, 0, 0, 0, &[]);
    assert!(matches!(BtfSplit::build(None, unknown.finish()), Err(BtfError::UnknownKind(25))));
}

#[test]
fn test_resolve_alloc_pid() {
    let btf = kernel_btf();

    let f = btf_resolve_func(&btf, "alloc_pid").unwrap();
    assert_eq!(f.name, "alloc_pid");
    assert_eq!(
        f.full_name,
        "struct pid * alloc_pid(struct pid_namespace * ns, pid_t * set_tid, size_t set_tid_size)"
    );
    assert_eq!(f.args.len(), 3);
    assert_eq!(f.args[0].name, "ns");
    assert_eq!(f.args[1].name, "set_tid");
    assert_eq!(f.args[2].name, "set_tid_size");
    assert_eq!(f.type_id, 10);
    assert_eq!(f.proto_id, 9);
    assert_eq!(f.ret_type_id, 3);

    let var_name = btf_variable_name(&btf, &f.args[0]).unwrap();
    assert_eq!(var_name.type_str, "struct pid_namespace *");
    assert_eq!(var_name.full_name, "struct pid_namespace *ns");

    let var_name = btf_variable_name(&btf, &f.args[1]).unwrap();
    assert_eq!(var_name.type_str, "pid_t *");
    assert_eq!(var_name.full_name, "pid_t *set_tid");

    let var_name = btf_variable_name(&btf, &f.args[2]).unwrap();
    assert_eq!(var_name.type_str, "size_t");
    assert_eq!(var_name.full_name, "size_t set_tid_size");

    assert!(btf_resolve_func(&btf, "no_such_function").is_none());
    assert!(btf_resolve_func(&btf, "pid_t").is_none());
}

#[test]
fn format_of_each_kind() {
    let btf = kernel_btf();
    assert_eq!(var(&btf, "x", 11), ("struct pid_namespace *const".to_string(), "struct pid_namespace *const x".to_string()));
    assert_eq!(var(&btf, "x", 12).0, "const struct pid_namespace");
    assert_eq!(var(&btf, "a", 13), ("int[10]".to_string(), "int a[10]".to_string()));
    assert_eq!(var(&btf, "v", 14).0, "volatile int");
    assert_eq!(var(&btf, "u", 15).0, "union u");
    assert_eq!(var(&btf, "f", 16).0, "union fwdu");
    assert_eq!(var(&btf, "e", 17).0, "enum e");
    assert_eq!(
        var(&btf, "cb", 18),
        (
            "struct pid * (*)(struct pid_namespace * ns, pid_t * set_tid, size_t set_tid_size)".to_string(),
            "struct pid * (*cb)(struct pid_namespace * ns, pid_t * set_tid, size_t set_tid_size)".to_string()
        )
    );
    assert_eq!(var(&btf, "t", 19).0, "struct pid_namespace * __user");
    assert_eq!(var(&btf, "p", 20).0, "void *");
    assert_eq!(var(&btf, "d", 22).0, "struct pid_namespace *const[2]");
    assert_eq!(var(&btf, "i", 1), ("int".to_string(), "int i".to_string()));
    assert_eq!(var(&btf, "v", 0), ("void".to_string(), "void v".to_string()));
}

#[test]
fn cyclic_types_are_refused() {
    let btf = kernel_btf();
    assert!(btf_variable_name(&btf, &BtfVariable { name: "p".to_string(), type_id: 21 }).is_none());
    assert!(btf_resolve_type(&btf, 21).is_none());
    assert!(btf_variable_name(&btf, &BtfVariable { name: "p".to_string(), type_id: 99 }).is_none());
}

#[test]
fn resolve_struct_pointer() {
    let btf = kernel_btf();
    let t = btf_resolve_type(&btf, 11).unwrap();
    assert_eq!(t.type_prefix, "struct pid_namespace *const");
    assert_eq!(t.type_sufix, "");
    assert_eq!(t.actual_type_id, 4);
    let c = t.actual_type.unwrap();
    assert_eq!(c.type_str, "struct pid_namespace");
    assert_eq!(c.members.len(), 3);
    assert_eq!(c.members[0].name, "level");
    assert_eq!(c.members[1].name, "parent");
    assert_eq!(c.members[1].type_id, 5);

    let arr = btf_resolve_type(&btf, 22).unwrap();
    assert_eq!(arr.actual_type_id, 4);
    assert_eq!(arr.type_sufix, "[2]");

    let plain = btf_resolve_type(&btf, 6).unwrap();
    assert_eq!(plain.type_prefix, "pid_t");
    assert_eq!(plain.actual_type_id, 1);
    assert!(plain.actual_type.is_none());

    let un = btf_resolve_type(&btf, 15).unwrap();
    assert_eq!(un.actual_type_id, 15);
    let members = un.actual_type.unwrap().members;
    assert_eq!(members[0].name, "a");
    assert_eq!(members[1].name, "b");
}

#[test]
fn iterate_over_chains_of_alloc_pid() {
    let btf = kernel_btf();
    let base = btf_resolve_func(&btf, "alloc_pid").unwrap();

    let (resolved_var, resolved_type) =
        btf_iterate_over_names_chain(&btf, &base, "args.ns->parent->level").unwrap();
    assert_eq!(resolved_var.name, "level");
    assert_eq!(resolved_type.type_prefix, "int");

    let (resolved_var, resolved_type) =
        btf_iterate_over_names_chain(&btf, &base, "args.ns->un.b").unwrap();
    assert_eq!(resolved_var.name, "b");
    assert_eq!(resolved_type.type_prefix, "pid_t");

    let (resolved_var, _) = btf_iterate_over_names_chain(&btf, &base, "args.ns->").unwrap();
    assert_eq!(resolved_var.name, "ns");

    assert!(btf_iterate_over_names_chain(&btf, &base, "args.ns.level").is_none());
    assert!(btf_iterate_over_names_chain(&btf, &base, "args.ns->un->a").is_none());
    assert!(btf_iterate_over_names_chain(&btf, &base, "args.ns->nothing").is_none());
    assert!(btf_iterate_over_names_chain(&btf, &base, "args.missing").is_none());
    assert!(btf_iterate_over_names_chain(&btf, &base, "xargs.ns").is_none());
    assert!(btf_iterate_over_names_chain(&btf, &base, "args").is_none());
}

#[test]
fn resolve_the_chains_of_a_function() {
    let btf = kernel_btf();
    let base = btf_resolve_func(&btf, "alloc_pid").unwrap();

    let (resolved_var, resolved_type) =
        btf_iterate_over_names_chain(&btf, &base, "args.").unwrap();
    assert_eq!(resolved_var.name, "alloc_pid");
    assert_eq!(resolved_type.type_prefix, "alloc_pid");
    assert_eq!(resolved_type.type_sufix, base.full_name);
    let members = resolved_type.actual_type.unwrap().members;
    assert_eq!(members.len(), 3);
    assert_eq!(members[0].name, "ns");

    let (resolved_var, resolved_type) =
        btf_iterate_over_names_chain(&btf, &base, "retval").unwrap();
    assert_eq!(resolved_var.name, "retval");
    assert_eq!(resolved_var.type_id, 3);
    assert_eq!(resolved_type.type_prefix, "struct pid *");
    assert_eq!(resolved_type.actual_type.unwrap().members[0].name, "nr");

    let (resolved_var, resolved_type) =
        btf_iterate_over_names_chain(&btf, &base, "retval->nr").unwrap();
    assert_eq!(resolved_var.name, "nr");
    assert_eq!(resolved_type.type_prefix, "int");
    assert!(resolved_type.actual_type.is_none());

    assert!(btf_iterate_over_names_chain(&btf, &base, "retval()").is_some());
}

#[test]
fn module_split_on_top_of_kernel() {
    let base = Arc::new(kernel_btf());
    let base_str_len = {
        let mut w = BtfWriter::new(1, 0);
        let _ = &mut w;
        0
    };
    let _ = base_str_len;
    // The module's ids start after the kernel's 22 types; its names after the kernel's strings.
    let kernel_strings = kernel_string_len();
    let mut w = BtfWriter::new(23, kernel_strings);
    let dev = w.add_named("device", KIND_STRUCT, 4, &[("id", 1)], 1); // 23
    let dev_ptr = w.add("", KIND_PTR, 0, 0, dev, &[]); // 24
    let proto = w.add_named("", KIND_FUNC_PROTO, 1, &[("dev", dev_ptr), ("ns", 5)], 0); // 25
    let f = w.add("probe_dev", KIND_FUNC, 0, 0, proto, &[]); // 26
    assert_eq!(f, 26);
    let split = BtfSplit::build(Some(Arc::clone(&base)), w.finish()).unwrap();
    assert_eq!(split.first_type_id(), 23);
    let func = btf_resolve_func(&split, "probe_dev").unwrap();
    assert_eq!(func.full_name, "int probe_dev(struct device * dev, struct pid_namespace * ns)");
    assert!(btf_resolve_func(&split, "alloc_pid").is_none());
    let (v, t) = btf_iterate_over_names_chain(&split, &func, "args.ns->level").unwrap();
    assert_eq!(v.name, "level");
    assert_eq!(t.type_prefix, "int");
}

fn kernel_string_len() -> u32 {
    // Same strings, in the same order, as `kernel_btf` writes them.
    let names = [
        "int", "pid", "nr", "pid_namespace", "level", "parent", "un", "pid_t", "size_t", "ns",
        "set_tid", "set_tid_size", "alloc_pid", "u", "a", "b", "fwdu", "e", "user",
    ];
    1 + names.iter().map(|n| n.len() as u32 + 1).sum::<u32>()
}

#[test]
fn module_paths() {
    assert!(btf_module_path("").is_none());
    assert!(btf_module_path("vmlinux").is_none());
    assert_eq!(btf_module_path("mac80211").unwrap(), "/sys/kernel/btf/mac80211");
}

#[test]
fn every_counted_type_reads_and_listed_functions_are_found() {
    let btf = kernel_btf();
    let first = btf.first_type_id();
    for id in first..first + btf.number_of_types() as u32 {
        let t = btf.type_from_id(id).unwrap();
        assert_eq!(t.type_id, id);
    }
    assert!(btf.type_from_id(first + btf.number_of_types() as u32).is_err());
    let f = btf.find_function("alloc_pid").unwrap();
    assert_eq!(f.type_id, 10);
    assert!(btf.find_function("free_pid").is_none());
}

/// Types as the kernel has them for `alloc_pid` (whose namespace holds an `rcu` callback head)
/// and for `int vfs_open(const struct path *path, struct file *file)`.
fn vfs_btf() -> Btf {
    let mut w = BtfWriter::new(1, 0);
    let int = w.add("int", KIND_INT, 0, 0, 4, &[32]); // 1
    let cb = w.add_named("callback_head", KIND_STRUCT, 16, &[("next", 3), ("func", 5)], 1); // 2
    let cb_ptr = w.add("", KIND_PTR, 0, 0, cb, &[]); // 3
    let cb_fn = w.add_named("", KIND_FUNC_PROTO, 0, &[("", cb_ptr)], 0); // 4
    let cb_fn_ptr = w.add("", KIND_PTR, 0, 0, cb_fn, &[]); // 5
    let ns = w.add_named("pid_namespace", KIND_STRUCT, 24, &[("level", int), ("rcu", cb)], 1); // 6
    let ns_ptr = w.add("", KIND_PTR, 0, 0, ns, &[]); // 7
    let pid_t = w.add("pid_t", KIND_TYPEDEF, 0, 0, int, &[]); // 8
    let pid_t_ptr = w.add("", KIND_PTR, 0, 0, pid_t, &[]); // 9
    let size_t = w.add("size_t", KIND_TYPEDEF, 0, 0, int, &[]); // 10
    let pid = w.add_named("pid", KIND_STRUCT, 4, &[("nr", int)], 1); // 11
    let pid_ptr = w.add("", KIND_PTR, 0, 0, pid, &[]); // 12
    let proto = w.add_named(
        "",
        KIND_FUNC_PROTO,
        pid_ptr,
        &[("ns", ns_ptr), ("set_tid", pid_t_ptr), ("set_tid_size", size_t)],
        0,
    ); // 13
    w.add("alloc_pid", KIND_FUNC, 0, 0, proto, &[]); // 14
    let umode_t = w.add("umode_t", KIND_TYPEDEF, 0, 0, int, &[]); // 15
    let inode = w.add_named("inode", KIND_STRUCT, 4, &[("i_mode", umode_t)], 1); // 16
    let inode_ptr = w.add("", KIND_PTR, 0, 0, inode, &[]); // 17
    let dentry = w.add_named("dentry", KIND_STRUCT, 8, &[("d_inode", inode_ptr)], 1); // 18
    let dentry_ptr = w.add("", KIND_PTR, 0, 0, dentry, &[]); // 19
    let mnt = w.add_named("vfsmount", KIND_STRUCT, 4, &[("mnt_flags", int)], 1); // 20
    let mnt_ptr = w.add("", KIND_PTR, 0, 0, mnt, &[]); // 21
    let path = w.add_named("path", KIND_STRUCT, 16, &[("mnt", mnt_ptr), ("dentry", dentry_ptr)], 1); // 22
    let const_path = w.add("", KIND_CONST, 0, 0, path, &[]); // 23
    let const_path_ptr = w.add("", KIND_PTR, 0, 0, const_path, &[]); // 24
    let file = w.add_named("file", KIND_STRUCT, 4, &[("f_mode", int)], 1); // 25
    let file_ptr = w.add("", KIND_PTR, 0, 0, file, &[]); // 26
    let open_proto = w.add_named("", KIND_FUNC_PROTO, int, &[("path", const_path_ptr), ("file", file_ptr)], 0); // 27
    let open = w.add("vfs_open", KIND_FUNC, 0, 0, open_proto, &[]); // 28
    assert_eq!((cb_fn_ptr, open), (5, 28));
    BtfSplit::build(None, w.finish()).unwrap()
}

#[test]
fn test_iterate_over_mixed_chain() {
    // alloc_pid: ns->rcu.next->func
    let btf = vfs_btf();

    let base = btf_resolve_func(&btf, "alloc_pid").unwrap();

    let (resolved_var, resolved_type) =
        btf_iterate_over_names_chain(&btf, &base, "args.ns->rcu.next").unwrap();
    assert!(resolved_var.name == "next");
    assert!(resolved_type.actual_type.unwrap().members[0].name == "next");

    let (resolved_var, _resolved_type) =
        btf_iterate_over_names_chain(&btf, &base, "args.ns->rcu.func").unwrap();
    assert_eq!(resolved_var.name, "func");

    let resolved_fail = btf_iterate_over_names_chain(&btf, &base, "args.ns->rcu->next");
    assert!(resolved_fail.is_none());
}

#[test]
fn test_resolve_vfs_open() {
    // vfs_open: path->dentry->d_inode->i_uid
    let btf = vfs_btf();

    let base = btf_resolve_func(&btf, "vfs_open").unwrap();
    assert!(base.name == "vfs_open");

    let (resolved_var, resolved_type) =
        btf_iterate_over_names_chain(&btf, &base, "args.").unwrap();
    assert_eq!(resolved_var.name, "vfs_open");

    let members = resolved_type.actual_type.unwrap().members;
    assert_eq!(members.len(), 2);
    assert_eq!(members[0].name, "path");
    assert_eq!(members[1].name, "file");

    let (resolved_var, resolved_type) =
        btf_iterate_over_names_chain(&btf, &base, "retval").unwrap();
    assert_eq!(resolved_var.name, "retval");
    assert_eq!(resolved_type.type_prefix, "int");
    assert!(resolved_type.actual_type.is_none());

    let (resolved_var, resolved_type) =
        btf_iterate_over_names_chain(&btf, &base, "args.path").unwrap();
    assert_eq!(resolved_var.name, "path");
    assert_eq!(resolved_type.type_prefix, "const struct path *");
    let actual_type = resolved_type.actual_type.unwrap();
    assert_eq!(actual_type.type_str, "struct path");
    assert_eq!(actual_type.members[0].name, "mnt");

    let (resolved_var, resolved_type) =
        btf_iterate_over_names_chain(&btf, &base, "args.path->dentry->d_inode").unwrap();
    assert_eq!(resolved_var.name, "d_inode");
    assert_eq!(resolved_type.type_prefix, "struct inode *");
    let actual_type = resolved_type.actual_type.unwrap();
    assert_eq!(actual_type.type_str, "struct inode");
    assert_eq!(actual_type.members[0].name, "i_mode");

    let resolved_fail = btf_iterate_over_names_chain(&btf, &base, "args.path.dentry");
    assert!(resolved_fail.is_none());
}

#[test]
fn big_endian_blobs_are_read_in_their_order() {
    // A header alone, written big-endian: magic, version, flags, then five words.
    let mut be = vec![0xeb, 0x9f, 1, 0];
    for w in [24u32, 0, 0, 0, 1] {
        be.extend_from_slice(&w.to_be_bytes());
    }
    be.push(0);
    let split = BtfSplit::build_with_order(None, be.clone(), false).unwrap();
    assert_eq!(split.number_of_types(), 0);
    assert!(matches!(BtfSplit::build_with_order(None, be, true), Err(BtfError::NotNativeEndian)));
}

#[test]
fn function_count_is_of_distinct_names() {
    let mut w = BtfWriter::new(1, 0);
    let int = w.add("int", KIND_INT, 0, 0, 4, &[32]);
    let proto = w.add_named("", KIND_FUNC_PROTO, int, &[], 0);
    w.add("f", KIND_FUNC, 0, 0, proto, &[]);
    w.add("f", KIND_FUNC, 0, 0, proto, &[]);
    w.add("g", KIND_FUNC, 0, 0, proto, &[]);
    let btf = BtfSplit::build(None, w.finish()).unwrap();
    assert_eq!(btf.number_of_functions(), 2);
    // The last record of a name is the one found.
    assert_eq!(btf.find_function("f").unwrap().type_id, 4);
}

#[test]
fn chain_ending_in_a_separator_has_no_last_name() {
    assert!(chain_str_to_tokens("a.b->") == vec!["a", ".", "b", "->"]);
    assert!(chain_str_to_tokens("args.f1.") == vec!["args", ".", "f1", "."]);
}
