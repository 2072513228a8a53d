use telelog::diagram::{
    generate, ChartConfig, ChartType, Direction, OutputFormat, RenderError,
};
use telelog::logger::{Config, Logger};
use telelog::tracker::{ComponentNode, ComponentTracker};

fn parent_child() -> Logger {
    let mut logger = Logger::new("app");
    let p = logger.track_component("parent", 1, 0);
    let c = logger.track_component("child", 1, 1_000_000);
    assert!(logger.release_component(&c, 3_000_000));
    assert!(logger.release_component(&p, 5_000_000));
    logger
}

#[test]
fn parent_child_scenario() {
    let logger = parent_child();
    let nodes = logger.get_components();
    assert_eq!(nodes.len(), 2);
    let parent = nodes.iter().find(|n| n.name == "parent").unwrap();
    let child = nodes.iter().find(|n| n.name == "child").unwrap();
    assert_eq!(child.parent, Some(parent.id));
    assert_eq!(parent.parent, None);
    assert!(parent.end.unwrap() >= child.end.unwrap());
    assert!(parent.start <= child.start);
}

#[test]
fn nesting_depth_matches_tree_depth() {
    let mut t = ComponentTracker::new();
    let mut guards = Vec::new();
    for (i, name) in ["a", "b", "c", "d"].iter().enumerate() {
        guards.push(t.track(name, 7, i as u64 * 10));
    }
    let nodes = t.components();
    assert_eq!(nodes.len(), 4);
    for i in 0..4 {
        let mut depth = 0;
        let mut cur = nodes[i].parent;
        while let Some(p) = cur {
            depth += 1;
            cur = nodes[p].parent;
        }
        assert_eq!(depth, i);
    }
    while let Some(g) = guards.pop() {
        assert!(t.release(&g, 100));
    }
    let nodes = t.components();
    for i in 1..4 {
        let p = nodes[i].parent.unwrap();
        assert!(nodes[p].start <= nodes[i].start);
        assert!(nodes[p].end.unwrap() >= nodes[i].end.unwrap());
    }
}

#[test]
fn chains_build_separate_subtrees() {
    let mut t = ComponentTracker::new();
    let a = t.track("a", 1, 0);
    let b = t.track("b", 2, 1);
    let a2 = t.track("a2", 1, 2);
    let b2 = t.track("b2", 2, 3);
    let nodes = t.components();
    assert_eq!(nodes[a2.id.unwrap()].parent, a.id);
    assert_eq!(nodes[b2.id.unwrap()].parent, b.id);
    assert_eq!(nodes[1].parent, None);
    assert_eq!(t.current(1), a2.id);
    assert_eq!(t.current(3), None);
}

#[test]
fn sibling_positions_count_up() {
    let mut t = ComponentTracker::new();
    let root = t.track("root", 1, 0);
    for i in 0..3u64 {
        let g = t.track("leaf", 1, i + 1);
        assert!(t.release(&g, i + 1));
    }
    assert!(t.release(&root, 10));
    let seqs: Vec<usize> = t.components().iter().map(|n| n.seq).collect();
    assert_eq!(seqs, vec![0, 0, 1, 2]);
}

#[test]
fn out_of_order_release_is_refused() {
    let mut t = ComponentTracker::new();
    let outer = t.track("outer", 1, 0);
    let inner = t.track("inner", 1, 1);
    assert!(!t.release(&outer, 2));
    assert!(t.components()[0].end.is_none());
    assert!(t.release(&inner, 3));
    assert!(t.release(&outer, 4));
    assert!(!t.release(&outer, 5));
    assert_eq!(t.components()[0].end, Some(4));
}

#[test]
fn earlier_clock_reading_is_clamped() {
    let mut t = ComponentTracker::new();
    let a = t.track("a", 1, 50);
    let b = t.track("b", 2, 10);
    assert_eq!(t.components()[1].start, 50);
    assert!(t.release(&b, 20));
    assert_eq!(t.components()[1].end, Some(50));
    assert!(t.release(&a, 60));
    assert_eq!(t.now_floor(), 60);
}

#[test]
fn tracking_disabled_records_nothing() {
    let mut logger =
        Logger::with_config("app", &Config::new().with_component_tracking(false));
    let g = logger.track_component("x", 1, 0);
    assert_eq!(g.id, None);
    assert!(logger.get_components().is_empty());
    assert!(!logger.release_component(&g, 1));
}

#[test]
fn flowchart_text() {
    let logger = parent_child();
    let cfg = ChartConfig::new().with_chart_type(ChartType::Flowchart).with_timing(true);
    let text = logger.generate_diagram(&cfg).unwrap();
    assert_eq!(
        text,
        "flowchart TD\n    N0[\"parent (5 ms)\"]\n    N1[\"child (2 ms)\"]\n    N0 --> N1\n    classDef active stroke-dasharray: 5 5\n"
    );
}

#[test]
fn flowchart_counts_nodes_and_edges() {
    let mut t = ComponentTracker::new();
    let r1 = t.track("r1", 1, 0);
    let x = t.track("x", 1, 1);
    assert!(t.release(&x, 2));
    let y = t.track("y", 1, 3);
    assert!(t.release(&y, 4));
    assert!(t.release(&r1, 5));
    let _r2 = t.track("r2", 2, 6);
    let text = t.diagram(&ChartConfig::new().with_direction(Direction::LeftRight)).unwrap();
    let lines: Vec<&str> = text.lines().collect();
    assert_eq!(lines[0], "flowchart LR");
    assert_eq!(lines.iter().filter(|l| l.contains("[\"")).count(), 4);
    assert_eq!(lines.iter().filter(|l| l.contains("-->")).count(), 2);
    assert!(text.contains("    N3[\"r2\"]:::active\n"));
}

#[test]
fn generation_is_deterministic() {
    let logger = parent_child();
    for t in [ChartType::Flowchart, ChartType::Timeline, ChartType::Gantt] {
        let cfg = ChartConfig::new().with_chart_type(t).with_timing(true);
        let a = logger.generate_diagram(&cfg).unwrap();
        let b = logger.generate_diagram(&cfg).unwrap();
        assert_eq!(a, b);
    }
}

#[test]
fn timeline_text() {
    let logger = parent_child();
    let cfg = ChartConfig::new().with_chart_type(ChartType::Timeline).with_timing(true);
    assert_eq!(
        logger.generate_diagram(&cfg).unwrap(),
        "timeline\n    section parent\n        parent : 5 ms\n        child : 2 ms\n"
    );
    let plain = ChartConfig::new().with_chart_type(ChartType::Timeline);
    assert_eq!(
        logger.generate_diagram(&plain).unwrap(),
        "timeline\n    section parent\n        parent : done\n        child : done\n"
    );
}

#[test]
fn gantt_offsets_from_earliest_start() {
    let mut t = ComponentTracker::new();
    let p = t.track("parent", 1, 4_000_000);
    let c = t.track("child", 1, 6_000_000);
    assert!(t.release(&c, 9_000_000));
    assert!(t.release(&p, 12_000_000));
    let _open = t.track("other", 2, 15_000_000);
    let text = t.diagram(&ChartConfig::new().with_chart_type(ChartType::Gantt)).unwrap();
    assert_eq!(
        text,
        "gantt\n    dateFormat x\n    axisFormat %H:%M:%S.%L\n    section parent\n    parent :t0, 0, 8ms\n    child :t1, 2, 3ms\n    section other\n    other (ongoing) :active, t2, 11, 1ms\n"
    );
}

#[test]
fn markdown_output_is_fenced() {
    let logger = parent_child();
    let cfg = ChartConfig::new().with_output_format(OutputFormat::Markdown);
    let text = logger.generate_diagram(&cfg).unwrap();
    assert!(text.starts_with("```mermaid\nflowchart TD\n"));
    assert!(text.ends_with("classDef active stroke-dasharray: 5 5\n```\n"));
    assert_eq!(OutputFormat::Markdown.extension(), "md");
    assert_eq!(OutputFormat::Svg.extension(), "svg");
}

#[test]
fn labels_are_cleaned() {
    let mut t = ComponentTracker::new();
    let _g = t.track("say \"hi\": now", 1, 0);
    let text = t.diagram(&ChartConfig::new()).unwrap();
    assert!(text.contains("N0[\"say 'hi'  now\"]:::active"));
}

#[test]
fn empty_snapshot_draws_headers_only() {
    let t = ComponentTracker::new();
    assert_eq!(
        t.diagram(&ChartConfig::new()).unwrap(),
        "flowchart TD\n    classDef active stroke-dasharray: 5 5\n"
    );
    let g = ChartConfig::new().with_chart_type(ChartType::Timeline);
    assert_eq!(t.diagram(&g).unwrap(), "timeline\n");
}

fn node(id: usize, parent: Option<usize>, start: u64) -> ComponentNode {
    ComponentNode { id, name: format!("n{}", id), parent, start, end: None, chain: 1, seq: 0 }
}

#[test]
fn snapshot_with_missing_parent_is_refused() {
    let nodes = vec![node(0, None, 0), node(1, Some(5), 1)];
    assert_eq!(generate(&nodes, &ChartConfig::new()).err(), Some(RenderError::MissingParent { node: 1 }));
}

#[test]
fn snapshot_with_later_parent_is_refused() {
    let nodes = vec![node(0, None, 0), node(1, Some(2), 1), node(2, None, 2)];
    assert_eq!(
        generate(&nodes, &ChartConfig::new()).err(),
        Some(RenderError::ParentAfterChild { node: 1 })
    );
}

#[test]
fn snapshot_with_wrong_id_is_refused() {
    let nodes = vec![node(0, None, 0), node(3, None, 1)];
    assert_eq!(generate(&nodes, &ChartConfig::new()).err(), Some(RenderError::BadId { node: 1 }));
}

#[test]
fn snapshot_out_of_order_is_refused() {
    let nodes = vec![node(0, None, 5), node(1, None, 1)];
    assert_eq!(generate(&nodes, &ChartConfig::new()).err(), Some(RenderError::OutOfOrder { node: 1 }));
}

#[test]
fn snapshot_of_valid_nodes_draws() {
    let nodes = vec![node(0, None, 0), node(1, Some(0), 0)];
    let text = generate(&nodes, &ChartConfig::new()).unwrap();
    assert!(text.contains("    N0 --> N1\n"));
}
