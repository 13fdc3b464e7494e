use nalu::widgets::browser::{Browser, BrowserNode, BrowserNodePath, BrowserState, LineStyle};
use std::cmp::Ordering;

fn sample_nodes() -> BrowserNode<&'static str> {
    BrowserNode::from(
        None,
        vec![
            BrowserNode::from(
                Some("A"),
                vec![
                    BrowserNode::from(
                        Some("1"),
                        vec![
                            BrowserNode::from(Some("a"), vec![]),
                            BrowserNode::from(Some("b"), vec![]),
                        ],
                    ),
                    BrowserNode::from(Some("2"), vec![]),
                ],
            ),
            BrowserNode::from(Some("B"), vec![BrowserNode::from(Some("1"), vec![])]),
            BrowserNode::from(
                Some("C"),
                vec![
                    BrowserNode::from(Some("1"), vec![]),
                    BrowserNode::from(Some("2"), vec![]),
                    BrowserNode::from(Some("3"), vec![]),
                ],
            ),
        ],
    )
}

#[test]
fn browser_browser_node_test() {
    let mut nodes = sample_nodes();
    nodes.set_expanded(true);

    assert_eq!(nodes.get_render_len(), 3);

    nodes.get_children_mut()[0].set_expanded(true);
    assert_eq!(nodes.get_render_len(), 5);

    assert_eq!(nodes.get_path(0), BrowserNodePath(vec![0]));
    assert_eq!(nodes.get_path(1), BrowserNodePath(vec![0, 0]));
    assert_eq!(nodes.get_path(2), BrowserNodePath(vec![0, 1]));
    assert_eq!(nodes.get_path(3), BrowserNodePath(vec![1]));
    assert_eq!(nodes.get_path(4), BrowserNodePath(vec![2]));

    assert_eq!(
        nodes.get_paths(1..4, true),
        vec![
            BrowserNodePath(vec![0, 0]),
            BrowserNodePath(vec![0, 1]),
            BrowserNodePath(vec![1]),
        ]
    );

    assert_eq!(
        nodes.get_paths(0..4, true),
        vec![BrowserNodePath(vec![0]), BrowserNodePath(vec![1]),]
    );

    nodes.get_children_mut()[0].get_children_mut()[0].set_expanded(true);
    assert_eq!(nodes.get_path(2), BrowserNodePath(vec![0, 0, 0]));

    assert!(!BrowserNodePath(vec![]).contains(&BrowserNodePath(vec![])));
    assert!(!BrowserNodePath(vec![0]).contains(&BrowserNodePath(vec![])));
    assert!(BrowserNodePath(vec![]).contains(&BrowserNodePath(vec![0])));
    assert!(BrowserNodePath(vec![0]).contains(&BrowserNodePath(vec![0])));

    assert!(BrowserNodePath(vec![0]).contains(&BrowserNodePath(vec![0, 0])));
    assert!(BrowserNodePath(vec![0]).contains(&BrowserNodePath(vec![0, 1])));

    assert!(!BrowserNodePath(vec![0, 0]).contains(&BrowserNodePath(vec![0])));
    assert!(!BrowserNodePath(vec![0, 1]).contains(&BrowserNodePath(vec![0])));

    assert!(!BrowserNodePath(vec![1, 0]).contains(&BrowserNodePath(vec![2, 0])));

    assert!(nodes.get_node(&BrowserNodePath(vec![])).is_none());
    assert_eq!(
        nodes
            .get_node(&BrowserNodePath(vec![0]))
            .unwrap()
            .get_entry(),
        &Some("A")
    );
    assert_eq!(
        nodes
            .get_node(&BrowserNodePath(vec![1]))
            .unwrap()
            .get_entry(),
        &Some("B")
    );
    assert_eq!(
        nodes
            .get_node(&BrowserNodePath(vec![0, 1]))
            .unwrap()
            .get_entry(),
        &Some("2")
    );

    let mut paths = vec![
        BrowserNodePath(vec![0]),
        BrowserNodePath(vec![1, 0]),
        BrowserNodePath(vec![1]),
        BrowserNodePath(vec![2, 3]),
        BrowserNodePath(vec![2]),
        BrowserNodePath(vec![2, 4, 5]),
        BrowserNodePath(vec![3, 4, 5]),
        BrowserNodePath(vec![3, 4]),
    ];
    paths = BrowserNodePath::condense_paths(paths);
    assert_eq!(
        paths,
        vec![
            BrowserNodePath(vec![0]),
            BrowserNodePath(vec![1]),
            BrowserNodePath(vec![2]),
            BrowserNodePath(vec![3, 4]),
        ]
    );

    assert!(nodes.get_full_name(&BrowserNodePath(vec![])).is_empty());
    assert_eq!(nodes.get_full_name(&BrowserNodePath(vec![0])), vec!["A"]);
    assert_eq!(
        nodes.get_full_name(&BrowserNodePath(vec![0, 0])),
        vec!["A", "1"]
    );
    assert_eq!(
        nodes.get_full_name(&BrowserNodePath(vec![0, 1])),
        vec!["A", "2"]
    );
}

#[test]
fn browser_paths_uncondensed() {
    let mut nodes = sample_nodes();
    nodes.set_expanded(true);
    nodes.get_children_mut()[0].set_expanded(true);
    assert_eq!(
        nodes.get_paths(0..4, false),
        vec![
            BrowserNodePath(vec![0]),
            BrowserNodePath(vec![0, 0]),
            BrowserNodePath(vec![0, 1]),
            BrowserNodePath(vec![1]),
        ]
    );
    // An empty or reversed range gives no paths
    assert!(nodes.get_paths(3..3, true).is_empty());
    assert!(nodes.get_paths(4..2, false).is_empty());
    // Past the last line the path is empty
    assert_eq!(nodes.get_path(100), BrowserNodePath(vec![]));
}

#[test]
fn browser_render_len_collapsed() {
    let nodes = sample_nodes();
    // Not expanded and without entry: nothing is rendered
    assert_eq!(nodes.get_render_len(), 0);
    let leaf = BrowserNode::new(Some(7u32));
    assert_eq!(leaf.get_render_len(), 1);
    assert!(!leaf.is_parent());
    assert!(!leaf.is_expanded());
}

#[test]
fn browser_node_mut_access() {
    let mut nodes = sample_nodes();
    {
        let node = nodes.get_node_mut(&BrowserNodePath(vec![2, 1])).unwrap();
        *node.get_entry_mut() = Some("X");
        node.set_expanded(true);
    }
    assert_eq!(
        nodes.get_node(&BrowserNodePath(vec![2, 1])).unwrap().get_entry(),
        &Some("X")
    );
    assert!(nodes.get_node_mut(&BrowserNodePath(vec![2, 9])).is_none());
    assert!(nodes.get_node_mut(&BrowserNodePath(vec![])).is_none());
    let node = BrowserNode::from_expanded(Some(1u8), true, vec![BrowserNode::new(Some(2u8))]);
    assert!(node.is_expanded());
    assert!(node.is_parent());
    assert_eq!(node.get_render_len(), 2);
}

#[test]
fn browser_path_order_and_condense() {
    let a = BrowserNodePath::new(vec![0, 1]);
    let b = BrowserNodePath::new(vec![0, 1, 0]);
    let c = BrowserNodePath::new(vec![1]);
    assert_eq!(a.partial_cmp(&b), Some(Ordering::Less));
    assert_eq!(b.partial_cmp(&c), Some(Ordering::Less));
    assert_eq!(c.partial_cmp(&a), Some(Ordering::Greater));
    assert_eq!(a.partial_cmp(&a.clone()), Some(Ordering::Equal));
    assert!(a.lex_less(&c));
    // The empty path contains every non-empty path, so it condenses them all
    let condensed = BrowserNodePath::condense_paths(vec![c.clone(), BrowserNodePath::new(vec![]), a.clone()]);
    assert_eq!(condensed, vec![BrowserNodePath::new(vec![])]);
    // Duplicates are removed
    let condensed = BrowserNodePath::condense_paths(vec![c.clone(), c.clone(), b.clone()]);
    assert_eq!(condensed, vec![b.clone(), c.clone()]);
    assert_eq!(b.clone().to_vec(), vec![0, 1, 0]);
    assert!(BrowserNodePath::new(vec![]).is_empty());
}

#[test]
fn browser_state_selection() {
    let mut nodes = sample_nodes();
    nodes.set_expanded(true);
    nodes.get_children_mut()[0].set_expanded(true);
    let mut state = BrowserState::new(false, true, false);
    state.set_height(2);
    assert_eq!(state.get_height(), 2);
    state.select_relative(&nodes, 3, true);
    assert_eq!(state.get_primary_selected(), 3);
    assert_eq!(state.get_selected_range(), 3..4);
    // The window follows the cursor
    assert_eq!(state.get_visible_paths(&nodes), vec![BrowserNodePath(vec![0, 1]), BrowserNodePath(vec![1])]);
    // Extending the selection keeps the secondary cursor
    state.select_relative(&nodes, -2, false);
    assert_eq!(state.get_selected_range(), 1..4);
    assert_eq!(
        state.get_selected_paths(&nodes, true),
        vec![BrowserNodePath(vec![0, 0]), BrowserNodePath(vec![0, 1]), BrowserNodePath(vec![1])]
    );
    assert_eq!(state.get_primary_selected_path(&nodes), BrowserNodePath(vec![0, 0]));
    // Moving past the end clamps to the last line
    state.select_relative(&nodes, 100, true);
    assert_eq!(state.get_primary_selected(), 4);
    // Clicking on the selected line reports it
    assert!(!state.select_absolute(&nodes, 0, true));
    assert_eq!(state.get_primary_selected(), 3);
    assert!(state.select_absolute(&nodes, 0, true));
    state.scroll_relative(&nodes, -10);
    state.set_bounds_enabled(true);
    assert!(state.is_bounds_enabled());
    state.set_full_name_enabled(true);
    assert!(state.is_full_name_enabled());
    state.set_indent_enabled(false);
    assert!(!state.is_indent_enabled());
}

#[test]
fn browser_browser_render_test() {
    let mut nodes = sample_nodes();
    nodes.set_expanded(true);
    nodes.get_children_mut()[0].set_expanded(true);
    nodes.get_children_mut()[0].get_children_mut()[0].set_expanded(true);

    let browser_state = BrowserState::new(true, true, true);
    let browser = Browser::new(&browser_state, &nodes);
    assert!(browser.can_draw(10));
    let lines = browser.lines(10, 10).unwrap();
    let texts: Vec<String> = lines.iter().map(|l| l.text.clone()).collect();
    assert_eq!(
        texts,
        vec![
            "          ",
            "[-] A     ",
            "    [-] A.1",
            "        A.1.a",
            "        A.1.b",
            "    A.2   ",
            "[+] B     ",
            "↓↓↓↓↓↓↓↓↓↓",
        ]
    );
    assert_eq!(lines[1].style, LineStyle::PrimarySelected);
    assert_eq!(lines[2].style, LineStyle::Plain);
}

#[test]
fn browser_render_small_area() {
    let nodes = sample_nodes();
    let browser_state = BrowserState::new(true, true, false);
    let browser = Browser::new(&browser_state, &nodes);
    assert!(browser.lines(10, 1).is_none());

    let plain_state = BrowserState::new(false, false, false);
    let browser = Browser::new(&plain_state, &nodes);
    let lines = browser.lines(4, 5).unwrap();
    let texts: Vec<String> = lines.iter().map(|l| l.text.clone()).collect();
    // Collapsed root children: A, B, C, then nothing.
    assert_eq!(texts, vec!["[+] A", "[+] B", "[+] C", "    ", "    "]);
}

#[test]
fn browser_node_test() {
    let mut nodes = sample_nodes();
    nodes.set_expanded(true);

    assert_eq!(nodes.get_render_len(), 3);

    nodes.get_children_mut()[0].set_expanded(true);
    assert_eq!(nodes.get_render_len(), 5);

    assert_eq!(nodes.get_path(0), BrowserNodePath(vec![0]));
    assert_eq!(nodes.get_path(1), BrowserNodePath(vec![0, 0]));
    assert_eq!(nodes.get_path(2), BrowserNodePath(vec![0, 1]));
    assert_eq!(nodes.get_path(3), BrowserNodePath(vec![1]));
    assert_eq!(nodes.get_path(4), BrowserNodePath(vec![2]));

    assert_eq!(
        nodes.get_paths(1..4, true),
        vec![
            BrowserNodePath(vec![0, 0]),
            BrowserNodePath(vec![0, 1]),
            BrowserNodePath(vec![1]),
        ]
    );
    assert_eq!(nodes.get_paths(0..4, true), vec![BrowserNodePath(vec![0]), BrowserNodePath(vec![1])]);

    nodes.get_children_mut()[0].get_children_mut()[0].set_expanded(true);
    assert_eq!(nodes.get_path(2), BrowserNodePath(vec![0, 0, 0]));

    assert!(!BrowserNodePath(vec![]).contains(&BrowserNodePath(vec![])));
    assert!(!BrowserNodePath(vec![0]).contains(&BrowserNodePath(vec![])));
    assert!(BrowserNodePath(vec![]).contains(&BrowserNodePath(vec![0])));
    assert!(BrowserNodePath(vec![0]).contains(&BrowserNodePath(vec![0])));
    assert!(BrowserNodePath(vec![0]).contains(&BrowserNodePath(vec![0, 0])));
    assert!(BrowserNodePath(vec![0]).contains(&BrowserNodePath(vec![0, 1])));
    assert!(!BrowserNodePath(vec![0, 0]).contains(&BrowserNodePath(vec![0])));
    assert!(!BrowserNodePath(vec![0, 1]).contains(&BrowserNodePath(vec![0])));
    assert!(!BrowserNodePath(vec![1, 0]).contains(&BrowserNodePath(vec![2, 0])));

    assert!(nodes.get_node(&BrowserNodePath(vec![])).is_none());
    assert_eq!(nodes.get_node(&BrowserNodePath(vec![0])).unwrap().get_entry(), &Some("A"));
    assert_eq!(nodes.get_node(&BrowserNodePath(vec![1])).unwrap().get_entry(), &Some("B"));
    assert_eq!(nodes.get_node(&BrowserNodePath(vec![0, 1])).unwrap().get_entry(), &Some("2"));

    let paths = BrowserNodePath::condense_paths(vec![
        BrowserNodePath(vec![0]),
        BrowserNodePath(vec![1, 0]),
        BrowserNodePath(vec![1]),
        BrowserNodePath(vec![2, 3]),
        BrowserNodePath(vec![2]),
        BrowserNodePath(vec![2, 4, 5]),
        BrowserNodePath(vec![3, 4, 5]),
        BrowserNodePath(vec![3, 4]),
    ]);
    assert_eq!(
        paths,
        vec![
            BrowserNodePath(vec![0]),
            BrowserNodePath(vec![1]),
            BrowserNodePath(vec![2]),
            BrowserNodePath(vec![3, 4]),
        ]
    );
}

#[test]
fn browser_render_test() {
    let mut nodes = sample_nodes();
    nodes.set_expanded(true);
    nodes.get_children_mut()[0].set_expanded(true);
    nodes.get_children_mut()[0].get_children_mut()[0].set_expanded(true);

    let browser_state = BrowserState::new(true, true, true);
    let browser = Browser::new(&browser_state, &nodes);
    let lines = browser.lines(10, 10).unwrap();
    assert_eq!(lines.len(), 8);
    assert_eq!(lines[7].text, "↓↓↓↓↓↓↓↓↓↓");
}

#[test]
fn browser_rows_in_pre_order() {
    let mut nodes = sample_nodes();
    nodes.set_expanded(true);
    nodes.get_children_mut()[0].set_expanded(true);
    nodes.get_children_mut()[0].get_children_mut()[0].set_expanded(true);
    nodes.get_children_mut()[2].set_expanded(true);
    let expected: Vec<Vec<usize>> = vec![
        vec![0],
        vec![0, 0],
        vec![0, 0, 0],
        vec![0, 0, 1],
        vec![0, 1],
        vec![1],
        vec![2],
        vec![2, 0],
        vec![2, 1],
        vec![2, 2],
    ];
    assert_eq!(nodes.get_render_len(), expected.len());
    for (row, path) in expected.iter().enumerate() {
        let got = nodes.get_path(row);
        assert_eq!(got, BrowserNodePath(path.clone()));
        assert!(nodes.get_node(&got).is_some());
        if row > 0 {
            assert_eq!(nodes.get_path(row - 1).partial_cmp(&got), Some(Ordering::Less));
        }
    }
    assert!(nodes.get_path(10).is_empty());
    assert!(nodes.get_path(11).is_empty());
}

#[test]
fn browser_node_mut_untouched() {
    let mut nodes = sample_nodes();
    nodes.set_expanded(true);
    nodes.get_children_mut()[0].set_expanded(true);
    let before = nodes.get_paths(0..nodes.get_render_len(), false);
    assert!(nodes.get_node_mut(&BrowserNodePath(vec![0, 1])).is_some());
    assert_eq!(nodes.get_render_len(), 5);
    assert_eq!(nodes.get_paths(0..5, false), before);
    assert_eq!(nodes.get_node(&BrowserNodePath(vec![0, 1])).unwrap().get_entry(), &Some("2"));
    assert_eq!(nodes.get_node(&BrowserNodePath(vec![0, 0, 1])).unwrap().get_entry(), &Some("b"));
    assert!(!nodes.get_node(&BrowserNodePath(vec![0, 1])).unwrap().is_expanded());
}
