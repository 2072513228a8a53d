use vstd::prelude::*;
use crate::text::{decimal, label, lines_text, push_decimal, push_label, push_line};
use crate::tracker::{ComponentNode, ComponentTracker, edge_count, table_wf};

verus! {

/// The three layouts a diagram can take.
#[derive(Clone, Copy, Debug, PartialEq, Eq, Structural)]
pub enum ChartType {
    Flowchart,
    Timeline,
    Gantt,
}

/// Direction of a flowchart's edges.
#[derive(Clone, Copy, Debug, PartialEq, Eq, Structural)]
pub enum Direction {
    TopDown,
    LeftRight,
    BottomUp,
    RightLeft,
}

/// The file a diagram is saved as: an image rendered from the markup, or the
/// markup inside a Markdown code block.
#[derive(Clone, Copy, Debug, PartialEq, Eq, Structural)]
pub enum OutputFormat {
    Svg,
    Png,
    Pdf,
    Markdown,
}

/// How a diagram is drawn. Memory annotation is accepted; no memory data is
/// recorded, so it adds nothing.
#[derive(Clone, Copy, Debug, PartialEq, Eq, Structural)]
pub struct ChartConfig {
    pub chart_type: ChartType,
    pub direction: Direction,
    pub show_timing: bool,
    pub show_memory: bool,
    pub format: OutputFormat,
}

impl ChartConfig {
    /// A top-down flowchart without annotations, saved as SVG.
    pub fn new() -> (r: ChartConfig)
        ensures
            r == (ChartConfig {
                chart_type: ChartType::Flowchart,
                direction: Direction::TopDown,
                show_timing: false,
                show_memory: false,
                format: OutputFormat::Svg,
            }),
    {
        ChartConfig {
            chart_type: ChartType::Flowchart,
            direction: Direction::TopDown,
            show_timing: false,
            show_memory: false,
            format: OutputFormat::Svg,
        }
    }

    pub fn with_chart_type(self, t: ChartType) -> (r: ChartConfig)
        ensures
            r == (ChartConfig { chart_type: t, ..self }),
    {
        ChartConfig { chart_type: t, ..self }
    }

    pub fn with_direction(self, d: Direction) -> (r: ChartConfig)
        ensures
            r == (ChartConfig { direction: d, ..self }),
    {
        ChartConfig { direction: d, ..self }
    }

    pub fn with_timing(self, on: bool) -> (r: ChartConfig)
        ensures
            r == (ChartConfig { show_timing: on, ..self }),
    {
        ChartConfig { show_timing: on, ..self }
    }

    pub fn with_memory(self, on: bool) -> (r: ChartConfig)
        ensures
            r == (ChartConfig { show_memory: on, ..self }),
    {
        ChartConfig { show_memory: on, ..self }
    }

    pub fn with_output_format(self, f: OutputFormat) -> (r: ChartConfig)
        ensures
            r == (ChartConfig { format: f, ..self }),
    {
        ChartConfig { format: f, ..self }
    }
}

impl OutputFormat {
    /// The file extension of a saved diagram.
    pub fn extension(&self) -> (r: &'static str)
        ensures
            r@ == match *self {
                OutputFormat::Svg => "svg"@,
                OutputFormat::Png => "png"@,
                OutputFormat::Pdf => "pdf"@,
                OutputFormat::Markdown => "md"@,
            },
    {
        match self {
            OutputFormat::Svg => "svg",
            OutputFormat::Png => "png",
            OutputFormat::Pdf => "pdf",
            OutputFormat::Markdown => "md",
        }
    }
}

/// Why a snapshot cannot be drawn.
#[derive(Clone, Copy, Debug, PartialEq, Eq, Structural)]
pub enum RenderError {
    /// The node at this index does not carry its index as its id.
    BadId { node: usize },
    /// The node at this index names a parent id that is not in the table.
    MissingParent { node: usize },
    /// The node at this index names a parent that comes after it in the table,
    /// which no tracker produces since a parent exists before its children.
    ParentAfterChild { node: usize },
    /// The node at this index starts before the node created just before it.
    OutOfOrder { node: usize },
}

pub const NANOS_PER_MILLI: u64 = 1000000;

/// What a snapshot needs to be drawn: ids are positions, parents precede their
/// children, and starts never decrease in creation order.
pub open spec fn node_ok(nodes: Seq<ComponentNode>, i: int) -> bool {
    &&& nodes[i].id == i
    &&& match nodes[i].parent {
        Some(p) => p < i,
        None => true,
    }
    &&& (i > 0 ==> nodes[i - 1].start <= nodes[i].start)
}

pub open spec fn snapshot_ok(nodes: Seq<ComponentNode>) -> bool {
    forall|i: int| 0 <= i < nodes.len() ==> #[trigger] node_ok(nodes, i)
}

/// The first problem in a snapshot, looking at nodes in creation order.
pub open spec fn first_problem(nodes: Seq<ComponentNode>, k: int) -> Option<RenderError>
    decreases k,
{
    if k <= 0 {
        None
    } else {
        match first_problem(nodes, k - 1) {
            Some(e) => Some(e),
            None => {
                let i = k - 1;
                if nodes[i].id != i {
                    Some(RenderError::BadId { node: i as usize })
                } else if nodes[i].parent is Some && nodes[i].parent.unwrap() >= nodes.len() {
                    Some(RenderError::MissingParent { node: i as usize })
                } else if nodes[i].parent is Some && nodes[i].parent.unwrap() >= i {
                    Some(RenderError::ParentAfterChild { node: i as usize })
                } else if i > 0 && nodes[i - 1].start > nodes[i].start {
                    Some(RenderError::OutOfOrder { node: i as usize })
                } else {
                    None
                }
            },
        }
    }
}

proof fn lemma_first_problem(nodes: Seq<ComponentNode>, k: int)
    requires
        0 <= k <= nodes.len(),
    ensures
        first_problem(nodes, k) is None <==> forall|i: int| 0 <= i < k ==> #[trigger] node_ok(nodes, i),
    decreases k,
{
    if k > 0 {
        lemma_first_problem(nodes, k - 1);
        if first_problem(nodes, k - 1) is None && first_problem(nodes, k) is Some {
            assert(!node_ok(nodes, k - 1));
        }
    }
}

/// Checks a snapshot; `Err` names the first node that cannot be drawn.
pub fn check_snapshot(nodes: &Vec<ComponentNode>) -> (r: Result<(), RenderError>)
    ensures
        r is Ok <==> snapshot_ok(nodes@),
        match r {
            Ok(_) => true,
            Err(e) => first_problem(nodes@, nodes@.len() as int) == Some(e),
        },
{
    let mut k: usize = 0;
    while k < nodes.len()
        invariant
            k <= nodes@.len(),
            first_problem(nodes@, k as int) is None,
        decreases nodes@.len() - k,
    {
        let n = &nodes[k];
        let bad = if n.id != k {
            Some(RenderError::BadId { node: k })
        } else if n.parent.is_some() && n.parent.unwrap() >= nodes.len() {
            Some(RenderError::MissingParent { node: k })
        } else if n.parent.is_some() && n.parent.unwrap() >= k {
            Some(RenderError::ParentAfterChild { node: k })
        } else if k > 0 && nodes[k - 1].start > n.start {
            Some(RenderError::OutOfOrder { node: k })
        } else {
            None
        };
        match bad {
            Some(e) => {
                assert forall|j: int| (k + 1) as int <= j <= nodes@.len() implies #[trigger] first_problem(nodes@, j) == Some(e) by {
                    lemma_first_problem_stays(nodes@, (k + 1) as int, j);
                }
                proof {
                    lemma_first_problem(nodes@, nodes@.len() as int);
                }
                return Err(e);
            },
            None => {},
        }
        k = k + 1;
    }
    proof {
        lemma_first_problem(nodes@, nodes@.len() as int);
    }
    Ok(())
}

proof fn lemma_first_problem_stays(nodes: Seq<ComponentNode>, a: int, b: int)
    requires
        0 <= a <= b,
        first_problem(nodes, a) is Some,
    ensures
        first_problem(nodes, b) == first_problem(nodes, a),
    decreases b,
{
    if a < b {
        lemma_first_problem_stays(nodes, a, b - 1);
    }
}

/// A node's label, with its duration in milliseconds when timing is shown and
/// the node is closed.
pub open spec fn titled(n: ComponentNode, cfg: ChartConfig) -> Seq<char> {
    label(n.name@) + if cfg.show_timing && n.end is Some {
        " ("@ + decimal(millis(n.start, n.end.unwrap())) + " ms)"@
    } else {
        Seq::empty()
    }
}

/// Whole milliseconds from `a` to `b` (nanoseconds), zero when `b` precedes `a`.
pub open spec fn millis(a: u64, b: u64) -> nat {
    if b >= a {
        ((b - a) / (NANOS_PER_MILLI as int)) as nat
    } else {
        0
    }
}

fn millis_between(a: u64, b: u64) -> (r: u64)
    ensures
        r as nat == millis(a, b),
{
    if b >= a {
        (b - a) / NANOS_PER_MILLI
    } else {
        0
    }
}

/// Appends `titled(n, cfg)`.
fn push_titled(out: &mut String, n: &ComponentNode, cfg: &ChartConfig)
    ensures
        final(out)@ == old(out)@ + titled(*n, *cfg),
{
    push_label(out, n.name.as_str());
    if cfg.show_timing && n.end.is_some() {
        let ghost mid = out@;
        out.append(" (");
        push_decimal(out, millis_between(n.start, n.end.unwrap()));
        out.append(" ms)");
        assert(out@ =~= old(out)@ + titled(*n, *cfg));
    } else {
        assert(out@ =~= old(out)@ + titled(*n, *cfg));
    }
}

pub open spec fn direction_code(d: Direction) -> Seq<char> {
    match d {
        Direction::TopDown => "TD"@,
        Direction::LeftRight => "LR"@,
        Direction::BottomUp => "BT"@,
        Direction::RightLeft => "RL"@,
    }
}

fn direction_str(d: Direction) -> (r: &'static str)
    ensures
        r@ == direction_code(d),
{
    match d {
        Direction::TopDown => "TD",
        Direction::LeftRight => "LR",
        Direction::BottomUp => "BT",
        Direction::RightLeft => "RL",
    }
}

/// `N<i>`: the diagram identifier of the node with id `i`.
pub open spec fn node_ref(i: nat) -> Seq<char> {
    "N"@ + decimal(i)
}

/// The flowchart declaration of node `i`; open nodes carry the `active` class.
pub open spec fn flow_node_line(nodes: Seq<ComponentNode>, cfg: ChartConfig, i: int) -> Seq<char> {
    "    "@ + node_ref(i as nat) + "[\""@ + titled(nodes[i], cfg) + "\"]"@ + if nodes[i].end is None {
        ":::active"@
    } else {
        Seq::empty()
    }
}

/// The flowchart node declarations of the first `k` nodes, one per node.
pub open spec fn flow_node_lines(nodes: Seq<ComponentNode>, cfg: ChartConfig, k: int) -> Seq<
    Seq<char>,
>
    decreases k,
{
    if k <= 0 {
        Seq::empty()
    } else {
        flow_node_lines(nodes, cfg, k - 1).push(flow_node_line(nodes, cfg, k - 1))
    }
}

pub open spec fn flow_edge_line(p: nat, i: nat) -> Seq<char> {
    "    "@ + node_ref(p) + " --> "@ + node_ref(i)
}

/// The flowchart edges of the first `k` nodes, one per node with a parent.
pub open spec fn flow_edge_lines(nodes: Seq<ComponentNode>, k: int) -> Seq<Seq<char>>
    decreases k,
{
    if k <= 0 {
        Seq::empty()
    } else {
        flow_edge_lines(nodes, k - 1) + match nodes[k - 1].parent {
            Some(p) => seq![flow_edge_line(p as nat, (k - 1) as nat)],
            None => Seq::empty(),
        }
    }
}

pub open spec fn flowchart_lines(nodes: Seq<ComponentNode>, cfg: ChartConfig) -> Seq<Seq<char>> {
    seq!["flowchart "@ + direction_code(cfg.direction)] + flow_node_lines(
        nodes,
        cfg,
        nodes.len() as int,
    ) + flow_edge_lines(nodes, nodes.len() as int) + seq![
        "    classDef active stroke-dasharray: 5 5"@,
    ]
}

fn flowchart(
    nodes: &Vec<ComponentNode>,
    cfg: &ChartConfig,
    out: &mut String,
    pre: Ghost<Seq<Seq<char>>>,
)
    requires
        old(out)@ == lines_text(pre@),
    ensures
        final(out)@ == lines_text(pre@ + flowchart_lines(nodes@, *cfg)),
{
    let ghost all = nodes@;
    let ghost n = all.len() as int;
    let mut head = String::new();
    head.append("flowchart ");
    head.append(direction_str(cfg.direction));
    let ghost mut ls: Seq<Seq<char>> = pre@;
    push_line(out, &head, Ghost(ls));
    proof {
        ls = ls.push(head@);
    }
    let mut k: usize = 0;
    while k < nodes.len()
        invariant
            k <= n,
            all == nodes@,
            n == nodes@.len(),
            ls =~= pre@ + seq![head@] + flow_node_lines(all, *cfg, k as int),
            out@ == lines_text(ls),
        decreases n - k,
    {
        let node = &nodes[k];
        let mut line = String::new();
        line.append("    ");
        line.append("N");
        push_decimal(&mut line, k as u64);
        line.append("[\"");
        push_titled(&mut line, node, cfg);
        line.append("\"]");
        if node.end.is_none() {
            line.append(":::active");
        }
        assert(line@ =~= flow_node_line(all, *cfg, k as int));
        push_line(out, &line, Ghost(ls));
        proof {
            ls = ls.push(line@);
        }
        k = k + 1;
    }
    let ghost ls_nodes = ls;
    k = 0;
    while k < nodes.len()
        invariant
            k <= n,
            all == nodes@,
            n == nodes@.len(),
            ls_nodes == pre@ + seq![head@] + flow_node_lines(all, *cfg, n),
            ls =~= ls_nodes + flow_edge_lines(all, k as int),
            out@ == lines_text(ls),
        decreases n - k,
    {
        match nodes[k].parent {
            Some(p) => {
                let mut line = String::new();
                line.append("    ");
                line.append("N");
                push_decimal(&mut line, p as u64);
                line.append(" --> ");
                line.append("N");
                push_decimal(&mut line, k as u64);
                assert(line@ =~= flow_edge_line(p as nat, k as nat));
                push_line(out, &line, Ghost(ls));
                proof {
                    ls = ls.push(line@);
                }
            },
            None => {},
        }
        k = k + 1;
    }
    let tail = String::from_str("    classDef active stroke-dasharray: 5 5");
    push_line(out, &tail, Ghost(ls));
    proof {
        ls = ls.push(tail@);
    }
    assert(ls =~= pre@ + flowchart_lines(nodes@, *cfg));
}

/// The root ancestor of node `i`.
pub open spec fn root_of(nodes: Seq<ComponentNode>, i: int) -> int
    decreases i,
{
    match nodes[i].parent {
        Some(p) => if 0 <= p < i {
            root_of(nodes, p as int)
        } else {
            i
        },
        None => i,
    }
}

/// The smallest start among the first `k` nodes (zero for none): the origin of
/// every offset in a Gantt chart.
pub open spec fn min_start(nodes: Seq<ComponentNode>, k: int) -> u64
    decreases k,
{
    if k <= 0 {
        0
    } else if k == 1 || nodes[k - 1].start < min_start(nodes, k - 1) {
        nodes[k - 1].start
    } else {
        min_start(nodes, k - 1)
    }
}

pub open spec fn baseline(nodes: Seq<ComponentNode>) -> u64 {
    min_start(nodes, nodes.len() as int)
}

/// A timeline entry: name, then duration (or `done`) if closed, `ongoing` if open.
pub open spec fn timeline_entry(n: ComponentNode, cfg: ChartConfig) -> Seq<char> {
    "        "@ + label(n.name@) + " : "@ + match n.end {
        Some(e) => if cfg.show_timing {
            decimal(millis(n.start, e)) + " ms"@
        } else {
            "done"@
        },
        None => "ongoing"@,
    }
}

/// A Gantt task: its offset from the baseline and its length in milliseconds;
/// an open task is marked active and ongoing.
pub open spec fn gantt_task(n: ComponentNode, base: u64) -> Seq<char> {
    "    "@ + label(n.name@) + match n.end {
        Some(e) => " :"@ + "t"@ + decimal(n.id as nat) + ", "@ + decimal(millis(base, n.start))
            + ", "@ + decimal(millis(n.start, e)) + "ms"@,
        None => " (ongoing) :active, "@ + "t"@ + decimal(n.id as nat) + ", "@ + decimal(
            millis(base, n.start),
        ) + ", "@ + "1ms"@,
    }
}

pub open spec fn entry_line(nodes: Seq<ComponentNode>, cfg: ChartConfig, i: int) -> Seq<char> {
    if cfg.chart_type == ChartType::Gantt {
        gantt_task(nodes[i], baseline(nodes))
    } else {
        timeline_entry(nodes[i], cfg)
    }
}

/// The entries of the section of root `r`, among the first `k` nodes, in
/// creation order.
pub open spec fn section_entries(nodes: Seq<ComponentNode>, cfg: ChartConfig, r: int, k: int) -> Seq<
    Seq<char>,
>
    decreases k,
{
    if k <= 0 {
        Seq::empty()
    } else {
        section_entries(nodes, cfg, r, k - 1) + if root_of(nodes, k - 1) == r {
            seq![entry_line(nodes, cfg, k - 1)]
        } else {
            Seq::empty()
        }
    }
}

pub open spec fn section_header(n: ComponentNode) -> Seq<char> {
    "    section "@ + label(n.name@)
}

/// One section per root among the first `k` nodes, in creation order.
pub open spec fn sections(nodes: Seq<ComponentNode>, cfg: ChartConfig, k: int) -> Seq<Seq<char>>
    decreases k,
{
    if k <= 0 {
        Seq::empty()
    } else {
        sections(nodes, cfg, k - 1) + if nodes[k - 1].parent is None {
            seq![section_header(nodes[k - 1])] + section_entries(
                nodes,
                cfg,
                k - 1,
                nodes.len() as int,
            )
        } else {
            Seq::empty()
        }
    }
}

pub open spec fn chart_head(cfg: ChartConfig) -> Seq<Seq<char>> {
    if cfg.chart_type == ChartType::Gantt {
        seq!["gantt"@, "    dateFormat x"@, "    axisFormat %H:%M:%S.%L"@]
    } else {
        seq!["timeline"@]
    }
}

pub open spec fn grouped_lines(nodes: Seq<ComponentNode>, cfg: ChartConfig) -> Seq<Seq<char>> {
    chart_head(cfg) + sections(nodes, cfg, nodes.len() as int)
}

fn baseline_of(nodes: &Vec<ComponentNode>) -> (r: u64)
    ensures
        r == baseline(nodes@),
{
    let mut m: u64 = 0;
    let mut k: usize = 0;
    while k < nodes.len()
        invariant
            k <= nodes@.len(),
            m == min_start(nodes@, k as int),
        decreases nodes@.len() - k,
    {
        if k == 0 || nodes[k].start < m {
            m = nodes[k].start;
        }
        k = k + 1;
    }
    m
}

fn roots_of(nodes: &Vec<ComponentNode>) -> (r: Vec<usize>)
    requires
        snapshot_ok(nodes@),
    ensures
        r@.len() == nodes@.len(),
        forall|i: int| 0 <= i < nodes@.len() ==> #[trigger] r@[i] as int == root_of(nodes@, i),
{
    let mut roots: Vec<usize> = Vec::new();
    let mut k: usize = 0;
    while k < nodes.len()
        invariant
            snapshot_ok(nodes@),
            k <= nodes@.len(),
            roots@.len() == k,
            forall|i: int| 0 <= i < k ==> #[trigger] roots@[i] as int == root_of(nodes@, i),
            forall|i: int| 0 <= i < k ==> #[trigger] roots@[i] <= i,
        decreases nodes@.len() - k,
    {
        assert(node_ok(nodes@, k as int));
        let r = match nodes[k].parent {
            Some(p) => roots[p],
            None => k,
        };
        roots.push(r);
        k = k + 1;
    }
    roots
}

fn entry(n: &ComponentNode, cfg: &ChartConfig, base: u64) -> (r: String)
    ensures
        cfg.chart_type == ChartType::Gantt ==> r@ == gantt_task(*n, base),
        cfg.chart_type != ChartType::Gantt ==> r@ == timeline_entry(*n, *cfg),
{
    let mut line = String::new();
    if cfg.chart_type == ChartType::Gantt {
        line.append("    ");
        push_label(&mut line, n.name.as_str());
        match n.end {
            Some(e) => {
                line.append(" :");
                line.append("t");
                push_decimal(&mut line, n.id as u64);
                line.append(", ");
                push_decimal(&mut line, millis_between(base, n.start));
                line.append(", ");
                push_decimal(&mut line, millis_between(n.start, e));
                line.append("ms");
            },
            None => {
                line.append(" (ongoing) :active, ");
                line.append("t");
                push_decimal(&mut line, n.id as u64);
                line.append(", ");
                push_decimal(&mut line, millis_between(base, n.start));
                line.append(", ");
                line.append("1ms");
            },
        }
        assert(line@ =~= gantt_task(*n, base));
    } else {
        line.append("        ");
        push_label(&mut line, n.name.as_str());
        line.append(" : ");
        match n.end {
            Some(e) => {
                if cfg.show_timing {
                    push_decimal(&mut line, millis_between(n.start, e));
                    line.append(" ms");
                } else {
                    line.append("done");
                }
            },
            None => {
                line.append("ongoing");
            },
        }
        assert(line@ =~= timeline_entry(*n, *cfg));
    }
    line
}

fn grouped(
    nodes: &Vec<ComponentNode>,
    cfg: &ChartConfig,
    out: &mut String,
    pre: Ghost<Seq<Seq<char>>>,
)
    requires
        snapshot_ok(nodes@),
        cfg.chart_type != ChartType::Flowchart,
        old(out)@ == lines_text(pre@),
    ensures
        final(out)@ == lines_text(pre@ + grouped_lines(nodes@, *cfg)),
{
    let ghost all = nodes@;
    let ghost n = all.len() as int;
    let ghost mut ls: Seq<Seq<char>> = pre@;
    if cfg.chart_type == ChartType::Gantt {
        let a = String::from_str("gantt");
        let b = String::from_str("    dateFormat x");
        let c = String::from_str("    axisFormat %H:%M:%S.%L");
        push_line(out, &a, Ghost(ls));
        proof {
            ls = ls.push(a@);
        }
        push_line(out, &b, Ghost(ls));
        proof {
            ls = ls.push(b@);
        }
        push_line(out, &c, Ghost(ls));
        proof {
            ls = ls.push(c@);
        }
    } else {
        let a = String::from_str("timeline");
        push_line(out, &a, Ghost(ls));
        proof {
            ls = ls.push(a@);
        }
    }
    assert(ls =~= pre@ + chart_head(*cfg));
    let base = baseline_of(nodes);
    let roots = roots_of(nodes);
    let mut r: usize = 0;
    while r < nodes.len()
        invariant
            r <= n,
            all == nodes@,
            n == nodes@.len(),
            base == baseline(all),
            cfg.chart_type != ChartType::Flowchart,
            roots@.len() == n,
            forall|i: int| 0 <= i < n ==> #[trigger] roots@[i] as int == root_of(all, i),
            ls =~= pre@ + chart_head(*cfg) + sections(all, *cfg, r as int),
            out@ == lines_text(ls),
        decreases n - r,
    {
        if nodes[r].parent.is_none() {
            let mut head = String::new();
            head.append("    section ");
            push_label(&mut head, nodes[r].name.as_str());
            assert(head@ =~= section_header(all[r as int]));
            push_line(out, &head, Ghost(ls));
            proof {
                ls = ls.push(head@);
            }
            let ghost ls0 = ls;
            let mut k: usize = 0;
            while k < nodes.len()
                invariant
                    k <= n,
                    r < n,
                    all == nodes@,
                    n == nodes@.len(),
                    base == baseline(all),
                    cfg.chart_type != ChartType::Flowchart,
                    roots@.len() == n,
                    forall|i: int| 0 <= i < n ==> #[trigger] roots@[i] as int == root_of(all, i),
                    ls =~= ls0 + section_entries(all, *cfg, r as int, k as int),
                    out@ == lines_text(ls),
                decreases n - k,
            {
                if roots[k] == r {
                    let line = entry(&nodes[k], cfg, base);
                    assert(line@ == entry_line(all, *cfg, k as int));
                    push_line(out, &line, Ghost(ls));
                    proof {
                        ls = ls.push(line@);
                    }
                }
                assert(roots@[k as int] as int == root_of(all, k as int));
                k = k + 1;
            }
        }
        r = r + 1;
    }
    assert(ls =~= pre@ + grouped_lines(nodes@, *cfg));
}

pub open spec fn diagram_lines(nodes: Seq<ComponentNode>, cfg: ChartConfig) -> Seq<Seq<char>> {
    if cfg.chart_type == ChartType::Flowchart {
        flowchart_lines(nodes, cfg)
    } else {
        grouped_lines(nodes, cfg)
    }
}

/// The diagram text of a snapshot under a configuration.
pub open spec fn diagram_text(nodes: Seq<ComponentNode>, cfg: ChartConfig) -> Seq<char> {
    if cfg.format == OutputFormat::Markdown {
        lines_text(seq!["```mermaid"@] + diagram_lines(nodes, cfg) + seq!["```"@])
    } else {
        lines_text(diagram_lines(nodes, cfg))
    }
}

/// Draws a snapshot of the component table. Fails, naming the first node at
/// fault, when the snapshot is not one a tracker could have produced.
pub fn generate(nodes: &Vec<ComponentNode>, cfg: &ChartConfig) -> (r: Result<String, RenderError>)
    ensures
        match r {
            Ok(s) => snapshot_ok(nodes@) && s@ == diagram_text(nodes@, *cfg),
            Err(e) => !snapshot_ok(nodes@) && first_problem(nodes@, nodes@.len() as int) == Some(e),
        },
{
    match check_snapshot(nodes) {
        Err(e) => {
            return Err(e);
        },
        Ok(_) => {},
    }
    let mut out = String::new();
    let ghost mut pre: Seq<Seq<char>> = Seq::empty();
    assert(out@ =~= lines_text(pre));
    if cfg.format == OutputFormat::Markdown {
        let fence = String::from_str("```mermaid");
        push_line(&mut out, &fence, Ghost(pre));
        proof {
            pre = pre.push(fence@);
        }
    }
    if cfg.chart_type == ChartType::Flowchart {
        flowchart(nodes, cfg, &mut out, Ghost(pre));
    } else {
        grouped(nodes, cfg, &mut out, Ghost(pre));
    }
    let ghost body = pre + diagram_lines(nodes@, *cfg);
    if cfg.format == OutputFormat::Markdown {
        let fence = String::from_str("```");
        push_line(&mut out, &fence, Ghost(body));
        assert(body.push(fence@) =~= seq!["```mermaid"@] + diagram_lines(nodes@, *cfg) + seq![
            "```"@,
        ]);
    } else {
        assert(body =~= diagram_lines(nodes@, *cfg));
    }
    Ok(out)
}

impl ComponentTracker {
    /// Draws the tracker's current table; a tracker's own table is always drawable.
    pub fn diagram(&self, cfg: &ChartConfig) -> (r: Result<String, RenderError>)
        requires
            self.wf(),
        ensures
            r is Ok,
            r.unwrap()@ == diagram_text(self.nodes(), *cfg),
    {
        proof {
            lemma_tracker_snapshot_ok(*self);
        }
        generate(self.components(), cfg)
    }
}

/// A tracker's table always passes the snapshot check.
pub proof fn lemma_tracker_snapshot_ok(tr: ComponentTracker)
    requires
        tr.wf(),
    ensures
        snapshot_ok(tr.nodes()),
{
    assert forall|i: int| 0 <= i < tr.nodes().len() implies #[trigger] node_ok(tr.nodes(), i) by {
        assert(crate::tracker::node_wf(tr.nodes(), tr.clock(), i));
    }
}

/// Generation is deterministic: the same snapshot under the same configuration
/// gives the same text.
pub proof fn lemma_generation_deterministic(
    a: Seq<ComponentNode>,
    b: Seq<ComponentNode>,
    cfg_a: ChartConfig,
    cfg_b: ChartConfig,
)
    requires
        a == b,
        cfg_a == cfg_b,
    ensures
        diagram_text(a, cfg_a) == diagram_text(b, cfg_b),
{
}

/// A flowchart has one node declaration per node and one edge per node with a
/// parent.
pub proof fn lemma_flowchart_counts(nodes: Seq<ComponentNode>, cfg: ChartConfig, k: int)
    requires
        0 <= k <= nodes.len(),
    ensures
        flow_node_lines(nodes, cfg, k).len() == k,
        flow_edge_lines(nodes, k).len() == edge_count(nodes, k),
    decreases k,
{
    if k > 0 {
        lemma_flowchart_counts(nodes, cfg, k - 1);
    }
}

/// The Gantt baseline is the smallest start: no task starts before it, and
/// some task starts exactly at it, so every offset is a true difference.
pub proof fn lemma_gantt_baseline(nodes: Seq<ComponentNode>, k: int)
    requires
        0 <= k <= nodes.len(),
    ensures
        forall|i: int| 0 <= i < k ==> min_start(nodes, k) <= #[trigger] nodes[i].start,
        k > 0 ==> exists|i: int| 0 <= i < k && nodes[i].start == min_start(nodes, k),
    decreases k,
{
    if k > 1 {
        lemma_gantt_baseline(nodes, k - 1);
    }
}

} // verus!
