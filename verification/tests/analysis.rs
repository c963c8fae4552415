use ssa::assignment::{Assignment, Operator};
use ssa::ast::{AstNode, NodeKind};
use ssa::cfg::Cfg;
use ssa::dict::Dictionary;
use ssa::flatten::FlatVariable;
use ssa::flow::DataFlowGraph;
use ssa::link::DataLink;
use ssa::network::{Network, StackContext};
use ssa::oracle::Action;
use ssa::variable::{Member, Variable, VariableComparison};
use ssa::vertex::{Shape, Vertex};

fn node(id: u32, kind: NodeKind) -> AstNode {
    AstNode {
        id,
        kind,
        name: None,
        value: None,
        member_name: None,
        operator: None,
        type_str: None,
        referenced_declaration: None,
        type_conversion: false,
        children: Vec::new(),
    }
}

fn decl(id: u32, name: &str, kind: &str) -> AstNode {
    let mut n = node(id, NodeKind::VariableDeclaration);
    n.name = Some(name.to_string());
    n.type_str = Some(kind.to_string());
    n
}

fn ident(id: u32, value: &str, kind: &str, decl_id: u32) -> AstNode {
    let mut n = node(id, NodeKind::Identifier);
    n.value = Some(value.to_string());
    n.type_str = Some(kind.to_string());
    n.referenced_declaration = Some(decl_id);
    n
}

fn assign(id: u32, op: &str, children: Vec<u32>) -> AstNode {
    let mut n = node(id, NodeKind::Assignment);
    n.operator = Some(op.to_string());
    n.children = children;
    n
}

fn wrap(id: u32, children: Vec<u32>) -> AstNode {
    let mut n = node(id, NodeKind::Other);
    n.children = children;
    n
}

fn member_access(id: u32, member: &str, kind: &str, base: u32) -> AstNode {
    let mut n = node(id, NodeKind::MemberAccess);
    n.member_name = Some(member.to_string());
    n.type_str = Some(kind.to_string());
    n.children = vec![base];
    n
}

fn var(members: Vec<Member>, attrs: Vec<&str>, kind: &str, source: &str) -> Variable {
    Variable {
        members,
        attributes: attrs.iter().map(|s| s.to_string()).collect(),
        kind: kind.to_string(),
        source: source.to_string(),
    }
}

fn simple_cfg(boxes: Vec<(u32, &str)>, stop: u32) -> Cfg {
    let mut vertices: Vec<Vertex> = boxes
        .iter()
        .map(|(id, src)| Vertex::new(*id, src, Shape::Box))
        .collect();
    vertices.push(Vertex::new(stop, "", Shape::Point));
    let mut edges = Vec::new();
    for w in boxes.windows(2) {
        edges.push((w[0].0, w[1].0));
    }
    if let Some(last) = boxes.last() {
        edges.push((last.0, stop));
    }
    Cfg {
        function_id: 0,
        vertices,
        edges,
        stop,
        execution_paths: Vec::new(),
        indexes: Vec::new(),
        fcalls: Vec::new(),
        returns_map: Vec::new(),
        parameters: Vec::new(),
    }
}

fn has_link(links: &Vec<DataLink>, from: (&Variable, u32), to: (&Variable, u32)) -> bool {
    links.iter().any(|l| {
        l.from.1 == from.1 && l.to.1 == to.1 && &l.from.0 == from.0 && &l.to.0 == to.0
    })
}

#[test]
fn comparison_trichotomy_cases() {
    let x = var(vec![Member::Reference(1)], vec!["x"], "uint256", "x");
    let y = var(vec![Member::Reference(2)], vec!["y"], "uint256", "y");
    let sa = var(
        vec![Member::Reference(3), Member::Reference(4)],
        vec!["s", "a"],
        "uint256",
        "s.a",
    );
    let s = var(vec![Member::Reference(3)], vec!["s"], "struct S", "s");
    assert_eq!(x.contains(&x), VariableComparison::Equal);
    assert_eq!(x.contains(&y), VariableComparison::NotEqual);
    assert_eq!(s.contains(&sa), VariableComparison::Partial);
    assert_eq!(sa.contains(&s), VariableComparison::Partial);
    assert_eq!(y.contains(&x), VariableComparison::NotEqual);
}

#[test]
fn comparison_wildcard_matches_any_segment() {
    let m_dollar = var(
        vec![Member::Reference(5), Member::IndexAccess],
        vec!["m", "$"],
        "uint256",
        "m.$",
    );
    let m_key = var(
        vec![Member::Reference(5), Member::IndexAccess],
        vec!["m", "k"],
        "uint256",
        "m.k",
    );
    assert_eq!(m_dollar.contains(&m_key), VariableComparison::Equal);
    assert_eq!(m_key.contains(&m_dollar), VariableComparison::Equal);
}

#[test]
fn kind_parsing() {
    assert_eq!(
        ssa::kind::parse_prefixed("struct S[][]", "struct "),
        Some(("S".to_string(), 2))
    );
    assert_eq!(ssa::kind::parse_prefixed("uint256", "struct "), None);
    assert_eq!(
        ssa::kind::parse_mapping("mapping(uint256 => uint256)"),
        Some(("uint256".to_string(), 1))
    );
    assert_eq!(
        ssa::kind::parse_mapping("mapping(uint256 => mapping(uint256 => bool))[]"),
        Some(("mapping(uint256 => bool)".to_string(), 2))
    );
    assert_eq!(
        ssa::kind::parse_array("uint256[][]"),
        Some(("uint256".to_string(), 2))
    );
    assert_eq!(ssa::kind::parse_array("uint256"), None);
    assert_eq!(
        ssa::kind::parse_conversion("type(uint256)"),
        Some("uint256".to_string())
    );
}

#[test]
fn flatten_struct_expands_fields() {
    let mut sdef = node(20, NodeKind::StructDefinition);
    sdef.name = Some("S".to_string());
    sdef.children = vec![21, 22];
    let nodes = vec![
        sdef,
        decl(21, "a", "uint256"),
        decl(22, "b", "uint256"),
        decl(23, "s", "struct S"),
    ];
    let dict = Dictionary::new(nodes);
    let fv = FlatVariable::new(&dict, 23);
    let vars = fv.get_variables();
    assert_eq!(vars.len(), 2);
    assert_eq!(vars[0].attributes, vec!["s".to_string(), "a".to_string()]);
    assert_eq!(vars[0].kind, "uint256".to_string());
    assert_eq!(
        vars[0].members,
        vec![Member::Reference(23), Member::Reference(21)]
    );
    assert_eq!(vars[1].attributes, vec!["s".to_string(), "b".to_string()]);
}

#[test]
fn flatten_prefix_closure_on_member_access() {
    let mut sdef = node(20, NodeKind::StructDefinition);
    sdef.name = Some("S".to_string());
    sdef.children = vec![21, 22];
    let nodes = vec![
        sdef,
        decl(21, "a", "uint256"),
        decl(22, "b", "uint256"),
        decl(23, "s", "struct S"),
        member_access(30, "a", "uint256", 31),
        ident(31, "s", "struct S", 23),
    ];
    let dict = Dictionary::new(nodes);
    let whole = FlatVariable::new(&dict, 31).get_variables();
    let part = FlatVariable::new(&dict, 30).get_variables();
    assert_eq!(part.len(), 1);
    for p in &part {
        assert!(whole
            .iter()
            .any(|w| w.members == p.members && w.attributes == p.attributes && w.kind == p.kind));
    }
}

#[test]
fn flatten_builtin_namespace() {
    let mut ma = member_access(40, "sender", "address", 41);
    ma.type_str = Some("address".to_string());
    let mut msg = node(41, NodeKind::Identifier);
    msg.value = Some("msg".to_string());
    msg.type_str = Some("msg".to_string());
    let dict = Dictionary::new(vec![ma, msg]);
    let vars = FlatVariable::new(&dict, 40).get_variables();
    // `msg.sender` is an address, and `address` is itself a namespace: the
    // expansion reaches its six members
    assert_eq!(vars.len(), 6);
    assert_eq!(
        vars[0].attributes,
        vec!["msg".to_string(), "sender".to_string(), "balance".to_string()]
    );
    assert_eq!(vars[0].kind, "uint256".to_string());
    assert_eq!(
        vars[0].members,
        vec![
            Member::Global("msg".to_string()),
            Member::Global("sender".to_string()),
            Member::Global("balance".to_string())
        ]
    );
    assert!(vars
        .iter()
        .any(|v| v.attributes == vec!["msg".to_string(), "sender".to_string(), "send".to_string()]
            && v.kind == "bool".to_string()));
}

#[test]
fn assignment_parse_plain_and_compound() {
    let nodes = vec![
        decl(1, "x", "uint256"),
        decl(2, "y", "uint256"),
        wrap(10, vec![11]),
        assign(11, "=", vec![12, 13]),
        ident(12, "x", "uint256", 1),
        wrap(13, vec![14, 15]),
        ident(14, "y", "uint256", 2),
        node(15, NodeKind::Other),
    ];
    let dict = Dictionary::new(nodes);
    let assigns = Assignment::parse(&dict, 10);
    assert_eq!(assigns.len(), 1);
    let (lhs, rhs, op) = assigns[0].to_tuple();
    assert_eq!(*op, Operator::Equal);
    assert_eq!(lhs.len(), 1);
    assert_eq!(lhs[0].attributes, vec!["x".to_string()]);
    assert_eq!(rhs.len(), 1);
    assert_eq!(rhs[0].attributes, vec!["y".to_string()]);
    assert_eq!(rhs[0].members, vec![Member::Reference(2)]);
}

#[test]
fn plain_assignment_kills_and_uses() {
    let nodes = vec![
        decl(1, "x", "uint256"),
        decl(2, "y", "uint256"),
        wrap(10, vec![11]),
        assign(11, "=", vec![12, 13]),
        ident(12, "x", "uint256", 1),
        wrap(13, vec![14, 15]),
        ident(14, "y", "uint256", 2),
        node(15, NodeKind::Other),
    ];
    let dict = Dictionary::new(nodes);
    let cfg = simple_cfg(vec![(10, "x = y + 20;")], 100);
    let mut dfg = DataFlowGraph::new(cfg);
    let links = dfg.find_links(&dict);
    assert!(links.is_empty());
    let acts = dfg
        .get_new_actions()
        .iter()
        .find(|(id, _)| *id == 10)
        .map(|(_, a)| a.clone())
        .unwrap();
    let x = var(vec![Member::Reference(1)], vec!["x"], "uint256", "x");
    let y = var(vec![Member::Reference(2)], vec!["y"], "uint256", "y");
    assert_eq!(acts.len(), 2);
    assert!(acts.contains(&Action::Kill(x, 10)));
    assert!(acts.contains(&Action::Use(y, 10)));
}

#[test]
fn compound_assignment_reads_its_target() {
    let nodes = vec![
        decl(1, "x", "uint256"),
        decl(2, "y", "uint256"),
        wrap(10, vec![11]),
        assign(11, "+=", vec![12, 14]),
        ident(12, "x", "uint256", 1),
        ident(14, "y", "uint256", 2),
    ];
    let dict = Dictionary::new(nodes);
    let cfg = simple_cfg(vec![(10, "x += y;")], 100);
    let mut dfg = DataFlowGraph::new(cfg);
    let links = dfg.find_links(&dict);
    assert!(links.is_empty());
    let acts = dfg
        .get_new_actions()
        .iter()
        .find(|(id, _)| *id == 10)
        .map(|(_, a)| a.clone())
        .unwrap();
    let x = var(vec![Member::Reference(1)], vec!["x"], "uint256", "x");
    let y = var(vec![Member::Reference(2)], vec!["y"], "uint256", "y");
    assert_eq!(acts.len(), 3);
    assert!(acts.contains(&Action::Kill(x.clone(), 10)));
    assert!(acts.contains(&Action::Use(x, 10)));
    assert!(acts.contains(&Action::Use(y, 10)));
    // the intra-vertex assignment phase suppresses the self link and finds
    // nothing comparable between x and y
    let network = Network::new(dict, 0, vec![simple_cfg(vec![(10, "x += y;")], 100)]);
    assert!(network.get_links().is_empty());
}

fn struct_fixture() -> Vec<AstNode> {
    let mut sdef = node(20, NodeKind::StructDefinition);
    sdef.name = Some("S".to_string());
    sdef.children = vec![21, 22];
    vec![
        sdef,
        decl(21, "a", "uint256"),
        decl(22, "b", "uint256"),
        decl(23, "s", "struct S"),
        // s.a = 1;
        wrap(30, vec![31]),
        assign(31, "=", vec![32, 33]),
        member_access(32, "a", "uint256", 34),
        node(33, NodeKind::Other),
        ident(34, "s", "struct S", 23),
        // s.b = s.a;
        wrap(40, vec![41]),
        assign(41, "=", vec![42, 43]),
        member_access(42, "b", "uint256", 44),
        member_access(43, "a", "uint256", 45),
        ident(44, "s", "struct S", 23),
        ident(45, "s", "struct S", 23),
    ]
}

#[test]
fn struct_field_kill_reaches_its_use() {
    let dict = Dictionary::new(struct_fixture());
    let cfg = simple_cfg(vec![(30, "s.a = 1;"), (40, "s.b = s.a;")], 100);
    let mut dfg = DataFlowGraph::new(cfg);
    let links = dfg.find_links(&dict);
    let sa = var(
        vec![Member::Reference(23), Member::Reference(21)],
        vec!["s", "a"],
        "uint256",
        "s.a",
    );
    assert_eq!(links.len(), 1);
    assert!(has_link(&links, (&sa, 40), (&sa, 30)));
}

fn mapping_fixture() -> Vec<AstNode> {
    let mut ia1 = node(62, NodeKind::IndexAccess);
    ia1.type_str = Some("uint256".to_string());
    ia1.children = vec![64, 65];
    let mut ia2 = node(73, NodeKind::IndexAccess);
    ia2.type_str = Some("uint256".to_string());
    ia2.children = vec![74, 75];
    vec![
        decl(50, "m", "mapping(uint256 => uint256)"),
        decl(51, "k", "uint256"),
        decl(52, "x", "uint256"),
        // m[k] = 5;
        wrap(60, vec![61]),
        assign(61, "=", vec![62, 63]),
        ia1,
        node(63, NodeKind::Other),
        ident(64, "m", "mapping(uint256 => uint256)", 50),
        ident(65, "k", "uint256", 51),
        // x = m[k];
        wrap(70, vec![71]),
        assign(71, "=", vec![72, 73]),
        ident(72, "x", "uint256", 52),
        ia2,
        ident(74, "m", "mapping(uint256 => uint256)", 50),
        ident(75, "k", "uint256", 51),
    ]
}

#[test]
fn mapping_flattens_to_wildcard_and_links() {
    let dict = Dictionary::new(mapping_fixture());
    let vars = FlatVariable::new(&dict, 62).get_variables();
    assert_eq!(vars.len(), 1);
    assert_eq!(vars[0].attributes, vec!["m".to_string(), "$".to_string()]);
    assert_eq!(vars[0].kind, "uint256".to_string());
    let cfg = simple_cfg(vec![(60, "m[k] = 5;"), (70, "x = m[k];")], 100);
    let mut dfg = DataFlowGraph::new(cfg);
    let links = dfg.find_links(&dict);
    let md = var(
        vec![Member::Reference(50), Member::IndexAccess],
        vec!["m", "$"],
        "uint256",
        "m.$",
    );
    assert_eq!(links.len(), 1);
    assert!(has_link(&links, (&md, 70), (&md, 60)));
}

#[test]
fn internal_call_links_carry_push_and_pop_context() {
    // contract state s; function f(uint256 s) { return s; }; caller invokes
    // f(s): the call site's variables link to the return statement's with a
    // Push mark, and the first defined parameter links to the first invoked
    // argument with a Pop mark.
    let mut fdef = node(80, NodeKind::FunctionDefinition);
    fdef.name = Some("f".to_string());
    fdef.children = vec![82, 83, 84];
    let mut plist = node(82, NodeKind::ParameterList);
    plist.children = vec![81];
    let mut ret = node(85, NodeKind::Return);
    ret.children = vec![86];
    let mut call = node(91, NodeKind::FunctionCall);
    call.type_str = Some("uint256".to_string());
    call.children = vec![92, 93];
    let nodes = vec![
        decl(79, "s", "uint256"),
        decl(81, "s", "uint256"),
        fdef,
        plist,
        node(83, NodeKind::ParameterList),
        wrap(84, vec![85]),
        ret,
        ident(86, "s", "uint256", 79),
        call,
        ident(92, "f", "function () returns (uint256)", 80),
        ident(93, "s", "uint256", 79),
    ];
    let dict = Dictionary::new(nodes);
    let callee_cfg = Cfg {
        function_id: 80,
        vertices: vec![
            Vertex::new(81, "uint256 s", Shape::Box),
            Vertex::new(85, "return s;", Shape::Box),
            Vertex::new(101, "", Shape::Point),
        ],
        edges: vec![(81, 85), (85, 101)],
        stop: 101,
        execution_paths: Vec::new(),
        indexes: Vec::new(),
        fcalls: Vec::new(),
        returns_map: vec![(80, vec![85])],
        parameters: vec![(80, vec![81])],
    };
    let caller_cfg = Cfg {
        function_id: 0,
        vertices: vec![
            Vertex::new(93, "s", Shape::Box),
            Vertex::new(91, "f(s)", Shape::DoubleCircle),
            Vertex::new(100, "", Shape::Point),
        ],
        edges: vec![(93, 91), (91, 100)],
        stop: 100,
        execution_paths: Vec::new(),
        indexes: Vec::new(),
        fcalls: vec![(91, vec![92, 93])],
        returns_map: Vec::new(),
        parameters: Vec::new(),
    };
    let network = Network::new(dict, 0, vec![callee_cfg, caller_cfg]);
    let s = var(vec![Member::Reference(79)], vec!["s"], "uint256", "s");
    let p = var(vec![Member::Reference(81)], vec!["s"], "uint256", "s");
    assert!(has_link(network.get_links(), (&s, 91), (&s, 85)));
    assert!(network
        .context
        .iter()
        .any(|(k, sc)| *k == (91, 85) && *sc == StackContext::Push(91)));
    // first defined parameter -> first invoked argument, marked Pop
    assert!(has_link(network.get_links(), (&p, 81), (&s, 93)));
    assert!(network
        .context
        .iter()
        .any(|(k, sc)| *k == (81, 93) && *sc == StackContext::Pop(91)));
    // the walk from the call site reaches the return statement and, through
    // the callee's internal link, the parameter's declaration
    let paths = network.traverse((s.clone(), 91));
    assert!(paths.iter().any(|p| {
        let ids: Vec<u32> = p.iter().map(|n| n.1).collect();
        ids == vec![91, 85, 81]
    }));
}

#[test]
fn overridden_members_are_deduplicated() {
    // Derived overrides Base's g and shadows Base's state a: only the
    // nearest declaration of each name survives, parents-first otherwise
    let mut base = node(1, NodeKind::ContractDefinition);
    base.name = Some("Base".to_string());
    base.children = vec![2, 3];
    let mut basef = node(3, NodeKind::FunctionDefinition);
    basef.name = Some("g".to_string());
    let mut derived = node(10, NodeKind::ContractDefinition);
    derived.name = Some("Derived".to_string());
    derived.children = vec![11, 12, 13];
    let mut inh = node(11, NodeKind::InheritanceSpecifier);
    inh.children = vec![14];
    let mut inh_ref = node(14, NodeKind::Other);
    inh_ref.referenced_declaration = Some(1);
    let mut dfun = node(13, NodeKind::FunctionDefinition);
    dfun.name = Some("g".to_string());
    let mut root = node(0, NodeKind::Other);
    root.children = vec![1, 10];
    let nodes = vec![
        root,
        base,
        decl(2, "a", "uint256"),
        basef,
        derived,
        inh,
        decl(12, "a", "uint256"),
        dfun,
        inh_ref,
    ];
    let mut dict = Dictionary::new(nodes);
    dict.traverse(0);
    assert_eq!(dict.lookup_functions_by_contract_id(10), vec![13]);
    assert_eq!(dict.lookup_states_by_contract_id(10), vec![12]);
    assert_eq!(dict.lookup_states_by_function_id(13), vec![12]);
    // Base on its own still sees its own members
    assert_eq!(dict.lookup_functions_by_contract_id(1), vec![3]);
    assert_eq!(dict.lookup_states_by_contract_id(1), vec![2]);
}

#[test]
fn traversal_rejects_mismatched_pop() {
    // two call sites into the same callee: a walk entering through the first
    // may not leave through the second's return edge
    let v = var(vec![Member::Reference(1)], vec!["v"], "uint256", "v");
    let l1 = DataLink::new(1, 2, v.clone());
    let l2 = DataLink::new(2, 3, v.clone());
    let l3 = DataLink::new(2, 4, v.clone());
    let network = Network {
        dict: Dictionary::new(Vec::new()),
        links: vec![l1, l2, l3],
        dfgs: Vec::new(),
        dot: ssa::dot::Dot::new(),
        contract_id: 0,
        context: vec![
            ((1, 2), StackContext::Push(10)),
            ((2, 3), StackContext::Pop(10)),
            ((2, 4), StackContext::Pop(20)),
        ],
        all_actions: Vec::new(),
        all_indexes: Vec::new(),
        all_execution_paths: Vec::new(),
        all_fcalls: Vec::new(),
        all_returns: Vec::new(),
        all_vertices: Vec::new(),
        all_defined_parameters: Vec::new(),
        all_states: Vec::new(),
    };
    let paths = network.traverse((v.clone(), 1));
    assert_eq!(paths.len(), 1);
    let ids: Vec<u32> = paths[0].iter().map(|n| n.1).collect();
    assert_eq!(ids, vec![1, 2, 3]);
}

#[test]
fn analysis_is_deterministic() {
    let dict1 = Dictionary::new(struct_fixture());
    let dict2 = Dictionary::new(struct_fixture());
    let cfg1 = simple_cfg(vec![(30, "s.a = 1;"), (40, "s.b = s.a;")], 100);
    let cfg2 = simple_cfg(vec![(30, "s.a = 1;"), (40, "s.b = s.a;")], 100);
    let n1 = Network::new(dict1, 0, vec![cfg1]);
    let n2 = Network::new(dict2, 0, vec![cfg2]);
    assert_eq!(n1.get_links(), n2.get_links());
    let sa = var(
        vec![Member::Reference(23), Member::Reference(21)],
        vec!["s", "a"],
        "uint256",
        "s.a",
    );
    assert_eq!(n1.traverse((sa.clone(), 40)), n2.traverse((sa, 40)));
}

#[test]
fn vertex_renders_as_dot_line() {
    let v = Vertex::new(7, "x = \"a\";", Shape::Box);
    assert_eq!(
        v.to_string(),
        "  7[label=\"x = \\\"a\\\";\", shape=\"box\"];\n"
    );
    let p = Vertex::new(12, "", Shape::Point);
    assert_eq!(p.to_string(), "  12[label=\"\", shape=\"point\"];\n");
}

#[test]
fn dictionary_contract_registration_and_lookups() {
    let mut contract = node(1, NodeKind::ContractDefinition);
    contract.name = Some("C".to_string());
    contract.children = vec![2, 3];
    let mut fdef = node(3, NodeKind::FunctionDefinition);
    fdef.name = Some("f".to_string());
    fdef.children = vec![4];
    let mut plist = node(4, NodeKind::ParameterList);
    plist.children = vec![5];
    let mut root = node(0, NodeKind::Other);
    root.children = vec![1];
    let nodes = vec![root, contract, decl(2, "s", "uint256"), fdef, plist, decl(5, "p", "uint256")];
    let mut dict = Dictionary::new(nodes);
    dict.traverse(0);
    assert_eq!(dict.find_contract_by_name("C"), Some(1));
    assert_eq!(dict.lookup_contract_by_name("C"), 1);
    assert_eq!(dict.lookup_functions_by_contract_id(1), vec![3]);
    assert_eq!(dict.lookup_states_by_contract_id(1), vec![2]);
    assert_eq!(dict.lookup_states_by_function_id(3), vec![2]);
    assert_eq!(dict.lookup_parameters(3), vec![5]);
    assert!(dict.lookup(5).is_some());
    assert!(dict.lookup(99).is_none());
}

#[test]
fn inherited_members_come_parents_first() {
    let mut base = node(1, NodeKind::ContractDefinition);
    base.name = Some("Base".to_string());
    base.children = vec![2, 3];
    let mut basef = node(3, NodeKind::FunctionDefinition);
    basef.name = Some("g".to_string());
    let mut derived = node(10, NodeKind::ContractDefinition);
    derived.name = Some("Derived".to_string());
    derived.children = vec![11, 12, 13];
    let mut inh = node(11, NodeKind::InheritanceSpecifier);
    inh.children = vec![14];
    let mut inh_ref = node(14, NodeKind::Other);
    inh_ref.referenced_declaration = Some(1);
    let mut dfun = node(13, NodeKind::FunctionDefinition);
    dfun.name = Some("h".to_string());
    let mut root = node(0, NodeKind::Other);
    root.children = vec![1, 10];
    let nodes = vec![
        root,
        base,
        decl(2, "a", "uint256"),
        basef,
        derived,
        inh,
        decl(12, "b", "uint256"),
        dfun,
        inh_ref,
    ];
    let mut dict = Dictionary::new(nodes);
    dict.traverse(0);
    assert_eq!(dict.lookup_functions_by_contract_id(10), vec![3, 13]);
    assert_eq!(dict.lookup_states_by_contract_id(10), vec![2, 12]);
}

#[test]
fn returns_and_calls_are_collected() {
    let mut fdef = node(1, NodeKind::FunctionDefinition);
    fdef.name = Some("f".to_string());
    fdef.children = vec![2];
    let mut body = wrap(2, vec![3, 4]);
    body.children = vec![3, 4];
    let mut ret = node(3, NodeKind::Return);
    ret.children = vec![];
    let mut call = node(4, NodeKind::FunctionCall);
    call.children = vec![];
    let dict = Dictionary::new(vec![fdef, body, ret, call]);
    assert_eq!(dict.lookup_returns(1), vec![3]);
    assert_eq!(dict.lookup_function_calls(1), vec![4]);
    assert_eq!(dict.lookup_returns(2), Vec::<u32>::new());
}

#[test]
fn graph_collects_declarations() {
    let mut root = node(0, NodeKind::Other);
    root.children = vec![1, 2];
    let nodes = vec![root, decl(1, "x", "uint256"), decl(2, "y", "uint256")];
    let dict = Dictionary::new(nodes);
    let g = ssa::graph::Graph::new(0);
    assert_eq!(g.build(&dict), vec![1, 2]);
}

#[test]
fn index_site_links_base_to_site() {
    let mut nodes = mapping_fixture();
    nodes.truncate(9);
    let dict = Dictionary::new(nodes);
    // the subscript site and its children are vertices of the function's CFG
    let cfg = Cfg {
        function_id: 0,
        vertices: vec![
            Vertex::new(62, "m[k]", Shape::Box),
            Vertex::new(65, "k", Shape::Box),
            Vertex::new(100, "", Shape::Point),
        ],
        edges: vec![(62, 65), (65, 100)],
        stop: 100,
        execution_paths: Vec::new(),
        indexes: vec![(62, vec![64, 65])],
        fcalls: Vec::new(),
        returns_map: Vec::new(),
        parameters: Vec::new(),
    };
    let network = Network::new(dict, 0, vec![cfg]);
    let md = var(
        vec![Member::Reference(50), Member::IndexAccess],
        vec!["m", "$"],
        "uint256",
        "m.$",
    );
    // the base expression feeds the subscript site
    assert!(has_link(network.get_links(), (&md, 64), (&md, 62)));
}

#[test]
fn network_renders_dot_digraph() {
    let dict = Dictionary::new(struct_fixture());
    let cfg = simple_cfg(vec![(30, "s.a = 1;"), (40, "s.b = s.a;")], 100);
    let mut network = Network::new(dict, 0, vec![cfg]);
    let text = network.format();
    assert!(text.starts_with("digraph {\n"));
    assert!(text.ends_with("}\n"));
    assert!(text.contains("  30[label=\"s.a = 1;\", shape=\"box\"];\n"));
    assert!(text.contains("  30 -> 40;\n"));
    assert!(text.contains("[label=\"s.a\", style=dotted];\n"));
}

#[test]
fn unknown_kind_is_a_leaf() {
    let dict = Dictionary::new(vec![decl(1, "x", "bytes32")]);
    let vars = FlatVariable::new(&dict, 1).get_variables();
    assert_eq!(vars.len(), 1);
    assert_eq!(vars[0].attributes, vec!["x".to_string()]);
    assert_eq!(vars[0].kind, "bytes32".to_string());
    assert_eq!(vars[0].source, "x".to_string());
}

#[test]
fn unresolved_identifier_becomes_global() {
    let mut free = node(5, NodeKind::Identifier);
    free.value = Some("now".to_string());
    free.type_str = Some("uint256".to_string());
    free.referenced_declaration = Some(999);
    let dict = Dictionary::new(vec![free]);
    let vars = FlatVariable::new(&dict, 5).get_variables();
    assert_eq!(vars.len(), 1);
    assert_eq!(vars[0].members, vec![Member::Global("now".to_string())]);
}

#[test]
fn conversion_kind_unwraps() {
    assert_eq!(
        ssa::kind::parse_conversion("type(address)"),
        Some("address".to_string())
    );
    assert_eq!(ssa::kind::parse_conversion("address"), None);
    assert_eq!(ssa::kind::trim_str("  uint256 ").as_str(), "uint256");
}

#[test]
fn traversal_stops_on_revisited_state() {
    // a cycle without context marks: the visited set cuts the walk
    let v = var(vec![Member::Reference(1)], vec!["v"], "uint256", "v");
    let l1 = DataLink::new(1, 2, v.clone());
    let l2 = DataLink::new(2, 1, v.clone());
    let network = Network {
        dict: Dictionary::new(Vec::new()),
        links: vec![l1, l2],
        dfgs: Vec::new(),
        dot: ssa::dot::Dot::new(),
        contract_id: 0,
        context: Vec::new(),
        all_actions: Vec::new(),
        all_indexes: Vec::new(),
        all_execution_paths: Vec::new(),
        all_fcalls: Vec::new(),
        all_returns: Vec::new(),
        all_vertices: Vec::new(),
        all_defined_parameters: Vec::new(),
        all_states: Vec::new(),
    };
    // the walk ends without emitting a path: a path is recorded only at a
    // node with no outgoing links, and every continuation here is visited
    let paths = network.traverse((v.clone(), 1));
    assert!(paths.is_empty());
}

#[test]
fn external_call_links_base_to_site() {
    // g(s) where g is not defined in the contract: the callee expression
    // links to the call site
    let mut call = node(91, NodeKind::FunctionCall);
    call.type_str = Some("uint256".to_string());
    call.children = vec![92, 93];
    let nodes = vec![
        decl(79, "s", "uint256"),
        call,
        ident(92, "g", "function (uint256)", 0),
        ident(93, "s", "uint256", 79),
    ];
    let dict = Dictionary::new(nodes);
    let cfg = Cfg {
        function_id: 0,
        vertices: vec![
            Vertex::new(91, "g(s)", Shape::DoubleCircle),
            Vertex::new(92, "g", Shape::Box),
            Vertex::new(93, "s", Shape::Box),
            Vertex::new(100, "", Shape::Point),
        ],
        edges: vec![(91, 100)],
        stop: 100,
        execution_paths: Vec::new(),
        indexes: Vec::new(),
        fcalls: vec![(91, vec![92, 93])],
        returns_map: Vec::new(),
        parameters: Vec::new(),
    };
    let network = Network::new(dict, 0, vec![cfg]);
    let s = var(vec![Member::Reference(79)], vec!["s"], "uint256", "s");
    // the site reads its argument, and the call expression's variables flow
    // from the base expression into the site
    assert!(has_link(network.get_links(), (&s, 91), (&s, 93)));
    assert!(has_link(network.get_links(), (&s, 92), (&s, 91)));
    assert!(network.context.is_empty());
}
