use whiteboard::picker::{pick_unit_system, Picker};
use whiteboard::recorder::{stroke_record_system, StepInput, STICKY_MILLIS};
use whiteboard::region::{Point, Region};
use whiteboard::render::render_strokes_system;
use whiteboard::stroke::{PointMeasurement, Stroke, StrokeGroup};
use whiteboard::time::LastUpdate;
use whiteboard::camera::camera_control_condition;
use whiteboard::tools::{switch_tool, KeyEvent, Tool, ToolBox, ToolKey};
use whiteboard::unit::{Board, Unit};

fn pt(x: i64, y: i64) -> Point {
    Point { x, y }
}

fn brush_toolbox() -> ToolBox {
    let mut tb = ToolBox::default();
    tb.next_tool();
    tb
}

fn fresh_unit(translation: Point, active: bool) -> Unit {
    Unit {
        layer: 0,
        translation,
        stroke_group: StrokeGroup::new(),
        region: Region::from_point(pt(0, 0)),
        last_update: LastUpdate::now(0),
        active,
        rendered: false,
    }
}

fn quiet_input(now: u64) -> StepInput {
    StepInput { just_pressed: false, pressed: false, press_point: None, moves: vec![], now }
}

// -- Region ---------------------------------------------------------------

#[test]
fn region_from_point_is_degenerate() {
    let r = Region::from_point(pt(3, 4));
    assert_eq!(r.min, pt(3, 4));
    assert_eq!(r.max, pt(3, 4));
    assert!(r.contains(pt(3, 4)));
}

#[test]
fn region_union_grows_to_exact_bounds() {
    let points = [pt(3, 4), pt(1, 2), pt(5, 0)];
    let mut r = Region::from_point(points[0]);
    for p in &points[1..] {
        r = r.union_point(*p);
    }
    // Contains every fed point, with the tightest possible corners.
    for p in &points {
        assert!(r.contains(*p));
    }
    assert_eq!(r.min, pt(1, 0));
    assert_eq!(r.max, pt(5, 4));
    assert!(!r.contains(pt(6, 4)));
    assert!(!r.contains(pt(1, -1)));
}

#[test]
fn region_contains_is_reflexive_for_union_points() {
    let mut r = Region::from_point(pt(0, 0));
    let fed = [pt(-2, 7), pt(4, -1), pt(0, 0), pt(4, -1)];
    for p in &fed {
        r = r.union_point(*p);
        assert!(r.contains(*p));
    }
    for p in &fed {
        assert!(r.contains(*p));
    }
    // Unioning a point already inside changes nothing.
    let again = r.union_point(pt(4, -1));
    assert_eq!(again, r);
}

#[test]
fn region_contains_boundary_is_closed() {
    let r = Region::new(pt(0, 0), pt(10, 10));
    assert!(r.contains(pt(0, 0)));
    assert!(r.contains(pt(10, 10)));
    assert!(r.contains(pt(10, 5)));
    assert!(!r.contains(pt(11, 5)));
    assert!(!r.contains(pt(5, -1)));
}

// -- Stroke data ----------------------------------------------------------

#[test]
fn point_measurement_press_stays_absent_until_given() {
    let m = PointMeasurement::new_point(pt(1, 2));
    assert_eq!(m.point, pt(1, 2));
    assert_eq!(m.press, None);
    let m2 = m.with_press(700);
    assert_eq!(m2.point, pt(1, 2));
    assert_eq!(m2.press, Some(700));
}

#[test]
fn stroke_group_starts_empty() {
    let g = StrokeGroup::new();
    assert!(g.strokes.is_empty());
    assert!(g.active_stroke.is_none());
}

// -- Tool selector --------------------------------------------------------

#[test]
fn tool_cycling_wraps_both_ways() {
    // Three `next` on the two-tool palette land back on index 0.
    let mut tb = ToolBox::default();
    assert_eq!(tb.current_tool_index, 0);
    tb.next_tool();
    tb.next_tool();
    tb.next_tool();
    assert_eq!(tb.current_tool_index, 1);
    tb.next_tool();
    assert_eq!(tb.current_tool_index, 0);
    // `previous` from index 0 lands on the last index.
    tb.prev_tool();
    assert_eq!(tb.current_tool_index, 1);
}

#[test]
fn tool_cycling_ignores_empty_list() {
    let mut tb = ToolBox { current_tool_index: 0, tools: vec![] };
    tb.next_tool();
    tb.prev_tool();
    assert_eq!(tb.current_tool_index, 0);
    assert!(tb.current_tool().is_none());
    assert!(tb.current_tool_mut().is_none());
}

#[test]
fn current_tool_follows_the_index() {
    let mut tb = ToolBox::default();
    assert!(matches!(tb.current_tool(), Some(Tool::Picker(_))));
    tb.next_tool();
    assert!(matches!(tb.current_tool(), Some(Tool::Brush {})));
    match tb.current_tool_mut() {
        Some(slot) => *slot = Tool::Picker(Picker { selected: vec![7] }),
        None => panic!("a two-tool palette has a current tool"),
    }
    assert!(matches!(tb.current_tool(), Some(Tool::Picker(p)) if p.selected == vec![7]));
}

#[test]
fn switch_tool_drains_events_in_order() {
    let mut tb = ToolBox::default();
    let events = vec![
        KeyEvent { pressed: true, key: ToolKey::NextTool },
        KeyEvent { pressed: true, key: ToolKey::Other },
        KeyEvent { pressed: false, key: ToolKey::PrevTool },
        KeyEvent { pressed: true, key: ToolKey::NextTool },
    ];
    switch_tool(&mut tb, &events);
    // next, ignored, ignored (release), next: back to the front.
    assert_eq!(tb.current_tool_index, 0);
    switch_tool(&mut tb, &vec![KeyEvent { pressed: true, key: ToolKey::PrevTool }]);
    assert_eq!(tb.current_tool_index, 1);
}

#[test]
fn camera_guard_follows_tool_and_selection() {
    let empty_picker = ToolBox::default();
    assert!(camera_control_condition(&empty_picker, true));
    assert!(!camera_control_condition(&empty_picker, false));

    let mut holding = ToolBox::default();
    holding.tools[0] = Tool::Picker(Picker { selected: vec![0] });
    assert!(!camera_control_condition(&holding, true));

    let brush = brush_toolbox();
    assert!(!camera_control_condition(&brush, true));

    let bare = ToolBox { current_tool_index: 0, tools: vec![] };
    assert!(camera_control_condition(&bare, true));
}

// -- Recorder -------------------------------------------------------------

#[test]
fn press_and_release_in_one_step_is_immediately_inactive() {
    let mut board = Board::new(pt(0, 0));
    let tb = brush_toolbox();
    let input = StepInput {
        just_pressed: true,
        pressed: false,
        press_point: Some(pt(5, 6)),
        moves: vec![],
        now: 10,
    };
    stroke_record_system(&mut board, &tb, &input);
    assert_eq!(board.units.len(), 1);
    let u = &board.units[0];
    assert!(!u.active);
    assert!(u.stroke_group.strokes.is_empty());
    assert!(u.stroke_group.active_stroke.is_none());
    assert_eq!(u.translation, pt(5, 6));
    assert_eq!(u.region.min, pt(0, 0));
    assert_eq!(u.region.max, pt(0, 0));
}

#[test]
fn gesture_commits_the_converted_samples_in_order() {
    let mut board = Board::new(pt(0, 0));
    let tb = brush_toolbox();
    let press = StepInput {
        just_pressed: true,
        pressed: true,
        press_point: Some(pt(10, 20)),
        moves: vec![],
        now: 100,
    };
    stroke_record_system(&mut board, &tb, &press);
    assert_eq!(board.units.len(), 1);
    assert!(board.units[0].active);

    // Two samples convert; the middle one fails and is skipped.
    let drag = StepInput {
        just_pressed: false,
        pressed: true,
        press_point: None,
        moves: vec![Some(pt(11, 21)), None, Some(pt(12, 19))],
        now: 150,
    };
    stroke_record_system(&mut board, &tb, &drag);
    {
        let u = &board.units[0];
        assert!(u.active);
        assert!(u.stroke_group.strokes.is_empty());
        let live = u.stroke_group.active_stroke.as_ref().expect("stroke in progress");
        let got: Vec<Point> = live.measurements.iter().map(|m| m.point).collect();
        assert_eq!(got, vec![pt(1, 1), pt(2, -1)]);
        assert!(live.measurements.iter().all(|m| m.press.is_none()));
        assert_eq!(u.region.min, pt(0, -1));
        assert_eq!(u.region.max, pt(2, 1));
        assert_eq!(u.last_update.millis, 150);
    }

    let release = quiet_input(200);
    stroke_record_system(&mut board, &tb, &release);
    let u = &board.units[0];
    // Exactly one committed stroke with exactly the converted samples;
    // the unit stays active through the stickiness window.
    assert!(u.active);
    assert!(u.stroke_group.active_stroke.is_none());
    assert_eq!(u.stroke_group.strokes.len(), 1);
    let got: Vec<Point> = u.stroke_group.strokes[0].measurements.iter().map(|m| m.point).collect();
    assert_eq!(got, vec![pt(1, 1), pt(2, -1)]);
    assert_eq!(u.last_update.millis, 200);
}

#[test]
fn failed_press_conversion_keeps_the_board_idle() {
    let mut board = Board::new(pt(0, 0));
    let tb = brush_toolbox();
    let input = StepInput {
        just_pressed: true,
        pressed: true,
        press_point: None,
        moves: vec![],
        now: 5,
    };
    stroke_record_system(&mut board, &tb, &input);
    assert!(board.units.is_empty());
}

#[test]
fn non_brush_tool_swallows_drawing_input() {
    let mut board = Board::new(pt(0, 0));
    let tb = ToolBox::default();  // picker selected
    let input = StepInput {
        just_pressed: true,
        pressed: true,
        press_point: Some(pt(1, 1)),
        moves: vec![],
        now: 5,
    };
    stroke_record_system(&mut board, &tb, &input);
    assert!(board.units.is_empty());
}

#[test]
fn timeout_finalizes_exactly_once() {
    let mut board = Board::new(pt(0, 0));
    let tb = brush_toolbox();
    stroke_record_system(&mut board, &tb, &StepInput {
        just_pressed: true,
        pressed: true,
        press_point: Some(pt(0, 0)),
        moves: vec![],
        now: 0,
    });
    stroke_record_system(&mut board, &tb, &StepInput {
        just_pressed: false,
        pressed: true,
        press_point: None,
        moves: vec![Some(pt(1, 1))],
        now: 10,
    });
    stroke_record_system(&mut board, &tb, &quiet_input(20));
    assert!(board.units[0].active);
    assert_eq!(board.units[0].last_update.millis, 20);

    // Within the window nothing changes.
    stroke_record_system(&mut board, &tb, &quiet_input(20 + STICKY_MILLIS));
    assert!(board.units[0].active);

    // One step past the window finalizes it.
    stroke_record_system(&mut board, &tb, &quiet_input(21 + STICKY_MILLIS));
    assert!(!board.units[0].active);
    assert_eq!(board.units[0].stroke_group.strokes.len(), 1);

    // Evaluated again and again, the board sits still.
    let settled = board.clone();
    for gap in 0..3u64 {
        stroke_record_system(&mut board, &tb, &quiet_input(100_000 + gap));
        assert_eq!(board, settled);
    }
}

#[test]
fn holding_still_past_the_window_commits_the_stroke() {
    let mut board = Board::new(pt(0, 0));
    let tb = brush_toolbox();
    stroke_record_system(&mut board, &tb, &StepInput {
        just_pressed: true,
        pressed: true,
        press_point: Some(pt(0, 0)),
        moves: vec![],
        now: 0,
    });
    stroke_record_system(&mut board, &tb, &StepInput {
        just_pressed: false,
        pressed: true,
        press_point: None,
        moves: vec![Some(pt(2, 3))],
        now: 1,
    });
    // Pointer still held, but no sample for longer than the window.
    stroke_record_system(&mut board, &tb, &StepInput {
        just_pressed: false,
        pressed: true,
        press_point: None,
        moves: vec![],
        now: STICKY_MILLIS + 2,
    });
    let u = &board.units[0];
    assert!(!u.active);
    assert_eq!(u.stroke_group.strokes.len(), 1);
    assert!(u.stroke_group.active_stroke.is_none());
}

#[test]
fn conflict_deactivates_all_and_keeps_committed_strokes() {
    let mut board = Board::new(pt(0, 0));
    let mut first = fresh_unit(pt(0, 0), true);
    first.stroke_group.strokes.push(Stroke {
        measurements: vec![PointMeasurement::new_point(pt(1, 1))],
    });
    first.stroke_group.active_stroke = Some(Stroke {
        measurements: vec![PointMeasurement::new_point(pt(9, 9))],
    });
    let mut second = fresh_unit(pt(5, 5), true);
    second.stroke_group.strokes.push(Stroke {
        measurements: vec![PointMeasurement::new_point(pt(2, 2))],
    });
    board.units.push(first);
    board.units.push(second);

    let tb = brush_toolbox();
    stroke_record_system(&mut board, &tb, &quiet_input(50));
    assert!(!board.units[0].active);
    assert!(!board.units[1].active);
    // Committed data survives; the in-progress stroke is merely abandoned.
    assert_eq!(board.units[0].stroke_group.strokes.len(), 1);
    assert_eq!(board.units[0].stroke_group.strokes[0].measurements[0].point, pt(1, 1));
    assert_eq!(board.units[1].stroke_group.strokes.len(), 1);
    assert_eq!(board.units[1].stroke_group.strokes[0].measurements[0].point, pt(2, 2));
}

#[test]
fn creation_step_ignores_queued_moves() {
    // The samples queued in the same step as the press belong to the next
    // evaluation; the fresh unit starts with nothing recorded.
    let mut board = Board::new(pt(0, 0));
    let tb = brush_toolbox();
    stroke_record_system(&mut board, &tb, &StepInput {
        just_pressed: true,
        pressed: true,
        press_point: Some(pt(3, 3)),
        moves: vec![Some(pt(4, 4)), Some(pt(5, 5))],
        now: 0,
    });
    assert_eq!(board.units.len(), 1);
    assert!(board.units[0].stroke_group.active_stroke.is_none());
    assert!(board.units[0].stroke_group.strokes.is_empty());
}

#[test]
fn out_of_range_tool_index_means_no_current_tool() {
    let tb = ToolBox { current_tool_index: 9, tools: vec![Tool::Brush {}] };
    assert!(tb.current_tool().is_none());
    // With no current tool the camera is free, as on an empty list.
    assert!(camera_control_condition(&tb, true));
}

// -- Picker ---------------------------------------------------------------

#[test]
fn pick_inside_region_selects_the_unit() {
    // A unit whose region spans [(0,0),(10,10)] in its local space, with
    // world coordinates quantized at ten-thousandths of a unit.
    let mut board = Board::new(pt(0, 0));
    let mut u = fresh_unit(pt(0, 0), false);
    u.region = Region::new(pt(0, 0), pt(100_000, 100_000));
    board.units.push(u);

    let mut tb = ToolBox::default();
    pick_unit_system(&mut tb, &board, true, Some(pt(50_000, 50_000)));
    match tb.current_tool() {
        Some(Tool::Picker(p)) => assert_eq!(p.selected, vec![0]),
        _ => panic!("the picker stays current"),
    }
}

#[test]
fn pick_just_above_max_selects_nothing() {
    // A press at (10.0001, 5) in the same quantization lands outside.
    let mut board = Board::new(pt(0, 0));
    let mut u = fresh_unit(pt(0, 0), false);
    u.region = Region::new(pt(0, 0), pt(100_000, 100_000));
    board.units.push(u);

    let mut tb = ToolBox::default();
    pick_unit_system(&mut tb, &board, true, Some(pt(100_001, 50_000)));
    match tb.current_tool() {
        Some(Tool::Picker(p)) => assert!(p.selected.is_empty()),
        _ => panic!("the picker stays current"),
    }
}

#[test]
fn pick_translates_into_unit_local_space() {
    let mut board = Board::new(pt(100, 0));
    let mut u = fresh_unit(pt(20, 20), false);
    u.region = Region::new(pt(0, 0), pt(10, 10));
    board.units.push(u);

    let mut tb = ToolBox::default();
    // World (125, 25) is local (5, 5): inside.
    pick_unit_system(&mut tb, &board, true, Some(pt(125, 25)));
    // World (5, 5) is local (-115, -15): outside.
    pick_unit_system(&mut tb, &board, true, Some(pt(5, 5)));
    match tb.current_tool() {
        Some(Tool::Picker(p)) => assert_eq!(p.selected, vec![0]),
        _ => panic!("the picker stays current"),
    }
}

#[test]
fn pick_again_appends_a_duplicate() {
    let mut board = Board::new(pt(0, 0));
    let mut u = fresh_unit(pt(0, 0), false);
    u.region = Region::new(pt(0, 0), pt(10, 10));
    board.units.push(u);

    let mut tb = ToolBox::default();
    pick_unit_system(&mut tb, &board, true, Some(pt(5, 5)));
    pick_unit_system(&mut tb, &board, true, Some(pt(6, 6)));
    match tb.current_tool() {
        Some(Tool::Picker(p)) => {
            assert_eq!(p.selected, vec![0, 0]);
            assert!(p.picked());
        },
        _ => panic!("the picker stays current"),
    }
}

#[test]
fn pick_needs_a_fresh_press_and_a_converted_point() {
    let mut board = Board::new(pt(0, 0));
    let mut u = fresh_unit(pt(0, 0), false);
    u.region = Region::new(pt(0, 0), pt(10, 10));
    board.units.push(u);

    let mut tb = ToolBox::default();
    pick_unit_system(&mut tb, &board, false, Some(pt(5, 5)));
    pick_unit_system(&mut tb, &board, true, None);
    let mut brush = brush_toolbox();
    pick_unit_system(&mut brush, &board, true, Some(pt(5, 5)));
    match tb.current_tool() {
        Some(Tool::Picker(p)) => assert!(!p.picked()),
        _ => panic!("the picker stays current"),
    }
    assert!(matches!(brush.current_tool(), Some(Tool::Brush {})));
}

#[test]
fn pick_collects_every_hit_unit_in_index_order() {
    let mut board = Board::new(pt(0, 0));
    let mut a = fresh_unit(pt(0, 0), false);
    a.region = Region::new(pt(0, 0), pt(10, 10));
    let mut b = fresh_unit(pt(100, 100), false);
    b.region = Region::new(pt(0, 0), pt(10, 10));
    let mut c = fresh_unit(pt(2, 2), false);
    c.region = Region::new(pt(0, 0), pt(10, 10));
    board.units.push(a);
    board.units.push(b);
    board.units.push(c);

    let mut tb = ToolBox::default();
    // World (5, 5): inside the first (local (5,5)) and the third (local
    // (3,3)), far outside the second.
    pick_unit_system(&mut tb, &board, true, Some(pt(5, 5)));
    match tb.current_tool() {
        Some(Tool::Picker(p)) => assert_eq!(p.selected, vec![0, 2]),
        _ => panic!("the picker stays current"),
    }
}

// -- Renderer -------------------------------------------------------------

#[test]
fn renderer_draws_finished_units_once() {
    let mut board = Board::new(pt(0, 0));
    let mut done = fresh_unit(pt(0, 0), false);
    done.stroke_group.strokes.push(Stroke {
        measurements: vec![
            PointMeasurement::new_point(pt(1, 1)),
            PointMeasurement::new_point(pt(2, 2)),
        ],
    });
    done.stroke_group.strokes.push(Stroke {
        measurements: vec![PointMeasurement::new_point(pt(3, 3))],
    });
    board.units.push(done);

    let plan = render_strokes_system(&mut board);
    assert_eq!(plan.len(), 1);
    assert_eq!(plan[0].unit, 0);
    assert!(!plan[0].live);
    assert_eq!(plan[0].points, vec![pt(1, 1), pt(2, 2), pt(3, 3)]);
    assert!(board.units[0].rendered);

    // Rendered once: the next evaluation has nothing to draw.
    let plan2 = render_strokes_system(&mut board);
    assert!(plan2.is_empty());
}

#[test]
fn renderer_redraws_active_units_every_evaluation() {
    let mut board = Board::new(pt(0, 0));
    let mut live = fresh_unit(pt(0, 0), true);
    live.stroke_group.strokes.push(Stroke {
        measurements: vec![PointMeasurement::new_point(pt(4, 4))],
    });
    // The in-progress stroke is not drawn.
    live.stroke_group.active_stroke = Some(Stroke {
        measurements: vec![PointMeasurement::new_point(pt(9, 9))],
    });
    board.units.push(live);

    for _ in 0..2 {
        let plan = render_strokes_system(&mut board);
        assert_eq!(plan.len(), 1);
        assert_eq!(plan[0].unit, 0);
        assert!(plan[0].live);
        assert_eq!(plan[0].points, vec![pt(4, 4)]);
        assert!(!board.units[0].rendered);
    }
}

#[test]
fn renderer_orders_finished_before_live() {
    let mut board = Board::new(pt(0, 0));
    let mut live = fresh_unit(pt(0, 0), true);
    live.stroke_group.strokes.push(Stroke {
        measurements: vec![PointMeasurement::new_point(pt(7, 7))],
    });
    let done = fresh_unit(pt(1, 1), false);
    board.units.push(live);
    board.units.push(done);

    let plan = render_strokes_system(&mut board);
    assert_eq!(plan.len(), 2);
    assert_eq!(plan[0].unit, 1);
    assert!(!plan[0].live);
    assert!(plan[0].points.is_empty());
    assert_eq!(plan[1].unit, 0);
    assert!(plan[1].live);
    assert_eq!(plan[1].points, vec![pt(7, 7)]);
    assert!(board.units[1].rendered);
    assert!(!board.units[0].rendered);
}

// -- Time -----------------------------------------------------------------

#[test]
fn last_update_tracks_the_given_clock() {
    let mut t = LastUpdate::now(40);
    assert_eq!(t.millis, 40);
    t.update(90);
    assert_eq!(t.millis, 90);
}
