use makai_waveform_db::bitvector::BitVector;
use nalu::python::bitvector::{BitVectorPy, LogicPy};
use nalu::python::buffer::BufferPy;
use nalu::python::signals::{
    new_group_py, new_signal_py, new_spacer_py, new_vector_py, AddChildError, SignalNodePy,
    SignalNodePyInternal, SignalRadixPy,
};
use nalu::python::utils::{config_lines, generate_config, split_generated, SaveConfigError};
use nalu::python::ConfigOwner;

fn saved_nodes() -> Vec<SignalNodePyInternal> {
    let mut nodes_nalu = Vec::new();
    nodes_nalu.push(SignalNodePyInternal::Signal {
        path: String::from("TOP.clk"),
        radix: SignalRadixPy::Hexadecimal,
        index: None,
        expanded: false,
        owner: ConfigOwner::Nalu,
    });
    nodes_nalu.push(SignalNodePyInternal::Signal {
        path: String::from("TOP.rst"),
        radix: SignalRadixPy::Hexadecimal,
        index: None,
        expanded: false,
        owner: ConfigOwner::User,
    });
    nodes_nalu.push(SignalNodePyInternal::Group {
        name: String::from("my_group"),
        children: vec![SignalNodePyInternal::Signal {
            path: String::from("TOP.rst"),
            radix: SignalRadixPy::Hexadecimal,
            index: None,
            expanded: false,
            owner: ConfigOwner::Nalu,
        }],
        expanded: false,
        owner: ConfigOwner::Nalu,
    });
    nodes_nalu
}

const TEMPLATE: &str = "import nalu\n\n### BEGIN NALU GENERATED CODE ###\ndef nalu_config(vcd_header):\n    return []\n### END NALU GENERATED CODE ###\n\ndef user_config(vcd_header):\n    return []\n";

#[test]
fn config_generated_lines() {
    let lines = generate_config(&saved_nodes());
    assert_eq!(
        lines,
        vec![
            "### BEGIN NALU GENERATED CODE ###",
            "# fmt: off",
            "def nalu_config(vcd_header):",
            "    \"\"\"Nalu generated waveform config\"\"\"",
            "    return [",
            "        new_signal(\"TOP.clk\", SignalRadix.Hexadecimal, False, None),",
            "        new_group(\"my_group\", False, [",
            "            new_signal(\"TOP.rst\", SignalRadix.Hexadecimal, False, None),",
            "        ]),",
            "    ]",
            "# fmt: on",
            "### END NALU GENERATED CODE ###",
        ]
    );
    assert_eq!(generate_config(&Vec::new())[4], "    return []");
}

#[test]
fn config_print_python_kinds() {
    let vector = SignalNodePyInternal::Vector {
        name: String::from("v"),
        children: vec![],
        radix: SignalRadixPy::Binary,
        expanded: true,
        owner: ConfigOwner::Nalu,
    };
    assert_eq!(
        vector.print_python(1),
        vec!["    new_vector(\"v\", SignalRadix.Binary, True, []),"]
    );
    let signal = SignalNodePyInternal::Signal {
        path: String::from("TOP.data"),
        radix: SignalRadixPy::Decimal,
        index: Some(12),
        expanded: true,
        owner: ConfigOwner::Nalu,
    };
    assert_eq!(
        signal.print_python(0),
        vec!["new_signal(\"TOP.data\", SignalRadix.Decimal, True, 12),"]
    );
    let spacer = SignalNodePyInternal::Spacer { owner: ConfigOwner::User };
    assert_eq!(spacer.print_python(2), vec!["        new_spacer(),"]);
    assert_eq!(SignalRadixPy::Octal.print_python(), "SignalRadix.Octal");
}

#[test]
fn config_split_generated() {
    let (pre, post) = split_generated(String::from(TEMPLATE)).unwrap();
    assert_eq!(pre, vec!["import nalu", ""]);
    assert_eq!(post, vec!["", "def user_config(vcd_header):", "    return []"]);
    let (pre, post) = split_generated(String::from(
        "a\r\n  ### BEGIN NALU GENERATED CODE ###  \r\nx\n\t### END NALU GENERATED CODE ###\nb",
    ))
    .unwrap();
    assert_eq!(pre, vec!["a"]);
    assert_eq!(post, vec!["b"]);
    assert_eq!(
        split_generated(String::from("### BEGIN NALU GENERATED CODE ###\n")),
        Err(SaveConfigError::MangledFile)
    );
    assert_eq!(split_generated(String::new()), Err(SaveConfigError::MangledFile));
}

#[test]
fn config_save_lines() {
    let lines = config_lines(String::from(TEMPLATE), String::new(), &saved_nodes(), false).unwrap();
    assert_eq!(lines[0], "import nalu");
    assert_eq!(lines[2], "### BEGIN NALU GENERATED CODE ###");
    assert_eq!(lines[lines.len() - 3], "");
    assert_eq!(lines[lines.len() - 2], "def user_config(vcd_header):");
    assert_eq!(lines.len(), 2 + 12 + 3);
}

#[test]
fn config_save_force() {
    // An empty file holds no markers: without force the save fails.
    assert_eq!(
        config_lines(String::new(), String::from(TEMPLATE), &saved_nodes(), false),
        Err(SaveConfigError::MangledFile)
    );
    // With force the template is used.
    let lines = config_lines(String::new(), String::from(TEMPLATE), &saved_nodes(), true).unwrap();
    assert_eq!(lines[0], "import nalu");
    assert_eq!(lines.len(), 17);
    // Neither text has the markers.
    assert_eq!(
        config_lines(String::new(), String::new(), &saved_nodes(), true),
        Err(SaveConfigError::MangledFile)
    );
}

#[test]
fn config_owner_is_set_everywhere() {
    let mut nodes = saved_nodes();
    nalu::python::signals::set_owner_all(&mut nodes, ConfigOwner::User);
    for node in &nodes {
        assert_eq!(node.get_owner(), ConfigOwner::User);
    }
    match &nodes[2] {
        SignalNodePyInternal::Group { children, name, .. } => {
            assert_eq!(name, "my_group");
            assert_eq!(children[0].get_owner(), ConfigOwner::User);
        }
        _ => panic!("expected a group"),
    }
}

#[test]
fn config_node_children() {
    let mut group = new_group_py(String::from("g"), true, None);
    assert!(group.is_group());
    assert_eq!(group.add_child(new_spacer_py()), Ok(()));
    let mut vector = new_vector_py(String::from("v"), SignalRadixPy::Hexadecimal, false, None);
    assert!(vector.is_vector());
    assert_eq!(
        vector.add_child(new_group_py(String::from("x"), false, None)),
        Err(AddChildError::GroupInVector)
    );
    assert_eq!(vector.add_child(new_spacer_py()), Err(AddChildError::SpacerInVector));
    let signal = new_signal_py(String::from("TOP.a"), SignalRadixPy::Binary, false, Some(3));
    assert!(signal.is_signal());
    assert_eq!(vector.add_child(signal.clone()), Ok(()));
    let mut spacer = new_spacer_py();
    assert!(spacer.is_spacer());
    assert_eq!(spacer.add_child(signal.clone()), Err(AddChildError::NoChildren));
    assert_eq!(
        AddChildError::NoChildren.message(),
        "Adding child node to node without children!"
    );
    let with_children = new_group_py(String::from("h"), false, Some(vec![signal, new_spacer_py()]));
    match with_children.into() {
        SignalNodePyInternal::Group { children, .. } => assert_eq!(children.len(), 2),
        _ => panic!("expected a group"),
    }
    let _ = SignalNodePy(SignalNodePyInternal::Spacer { owner: ConfigOwner::Nalu });
}

#[test]
fn buffer_cells() {
    let mut buffer = BufferPy::new(3, 2);
    assert_eq!(buffer.get_width(), 3);
    assert_eq!(buffer.get_height(), 2);
    assert_eq!(buffer.get_cell(1, 1), ' ');
    buffer.set_cell(1, 1, 'x');
    assert_eq!(buffer.get_cell(1, 1), 'x');
    assert_eq!(buffer.get_cell(1, 0), ' ');
    buffer.set_cell(5, 5, 'y');
    assert_eq!(buffer.get_cell(5, 5), ' ');
    buffer.set_cell(0, 0, 'a');
    assert_eq!(buffer.trimmed_rows(), vec!["a", "x"]);
}

#[test]
fn bitvector_reads_bits() {
    let bits = BitVectorPy::new(BitVector::from_bits_four_state(4, 0b1010u8, 0b1100u8));
    assert_eq!(bits.get_value_py(), vec![false, true, false, true]);
    assert_eq!(bits.get_mask_py(), vec![false, false, true, true]);
    assert_eq!(bits.get_logic_py(0), Some(LogicPy::Zero));
    assert_eq!(bits.get_logic_py(2), Some(LogicPy::Unknown));
    assert_eq!(bits.get_logic_py(3), Some(LogicPy::HighImpedance));
    assert_eq!(bits.get_logic_py(4), None);
    assert_eq!(bits.get_bit_py(1), Some(LogicPy::One));
    assert_eq!(bits.get_bit_py(2), None);
    assert_eq!(bits.get_bit_py(9), None);
    let one = BitVectorPy::new(BitVector::new_one_bit());
    assert_eq!(one.get_value_py(), vec![true]);
    assert_eq!(one.get_mask_py(), vec![false]);
}
