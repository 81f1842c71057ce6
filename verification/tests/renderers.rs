use fractal_render::image_utils::{IPoint, RGB};
use fractal_render::progress::Progress;
use fractal_render::renderer::{
    budget_spent, pool_size, runs_on_threads, Renderer, INLINE_BUDGET_MS,
};
use fractal_render::stage::{stage_size, BATCH, STAGES};
use fractal_render::viewport::{Focus, Size};
use fractal_render::worker::{Claim, Ticket};

fn focus() -> Focus {
    Focus::new((-0.5f64).to_bits(), 0.0f64.to_bits(), 2.0f64.to_bits())
}

/// The colour that the test kernel gives a pixel: it tells the pixel's
/// place, the stage and the region apart.
fn shade(focus: &Focus, stage: usize, p: IPoint) -> RGB {
    RGB {
        r: (p.x % 251) as u8,
        g: (p.y % 241) as u8,
        b: (stage as u8) * 16 + (focus.radius % 13) as u8,
        a: 255,
    }
}

fn compute(ticket: &Ticket) -> [RGB; BATCH] {
    let mut batch = [RGB::transparent(); BATCH];
    for k in 0..BATCH {
        batch[k] = shade(&ticket.focus, ticket.stage, ticket.pixel(k));
    }
    batch
}

/// Lets worker `id` take one step. Tells whether it stored a batch.
fn step(renderer: &mut Renderer, id: usize) -> bool {
    match renderer.claim(id) {
        Claim::Batch(ticket) => renderer.commit(id, &ticket, &compute(&ticket)),
        _ => false,
    }
}

/// Lets every worker run until it finds its stage exhausted.
fn exhaust(renderer: &mut Renderer) {
    for id in 0..renderer.worker_count() {
        while step(renderer, id) {}
    }
}

fn expected_stage(focus: &Focus, size: &Size, stage: usize) -> Vec<RGB> {
    let dims = stage_size(size, stage);
    let mut image = Vec::new();
    for y in 0..dims.y {
        for x in 0..dims.x {
            image.push(shade(focus, stage, IPoint::new(x, y)));
        }
    }
    image
}

#[test]
fn pool_size_is_the_number_of_processors_within_bounds() {
    assert_eq!(pool_size(0), 1);
    assert_eq!(pool_size(1), 1);
    assert_eq!(pool_size(8), 8);
    assert_eq!(pool_size(usize::MAX / BATCH), usize::MAX / BATCH);
    assert_eq!(pool_size(usize::MAX / BATCH + 1), usize::MAX / BATCH);
    assert_eq!(pool_size(usize::MAX), usize::MAX / BATCH);
}

#[test]
fn a_pool_of_one_runs_without_threads() {
    assert!(!runs_on_threads(0));
    assert!(!runs_on_threads(1));
    assert!(runs_on_threads(2));
    assert!(runs_on_threads(64));
}

#[test]
fn the_budget_is_spent_after_thirty_milliseconds() {
    assert_eq!(INLINE_BUDGET_MS, 30);
    assert!(!budget_spent(0));
    assert!(!budget_spent(29));
    assert!(!budget_spent(30));
    assert!(budget_spent(31));
    assert!(budget_spent(u128::MAX));
}

#[test]
fn a_new_renderer_has_a_worker_and_no_viewport() {
    let renderer = Renderer::new();
    assert!(renderer.worker_count() >= 1);
    assert_eq!(renderer.stage(), 0);
    assert_eq!(renderer.size(), Size::new(0, 0));
    assert_eq!(renderer.focus(), Focus::new(0, 0, 0));
}

#[test]
fn with_workers_makes_the_pool_asked_for() {
    let renderer = Renderer::with_workers(5);
    assert_eq!(renderer.worker_count(), 5);
    assert_eq!(renderer.stage(), 0);
    assert_eq!(renderer.size(), Size::new(0, 0));
}

#[test]
fn a_renderer_without_a_viewport_runs_through_its_stages() {
    let mut renderer = Renderer::with_workers(2);
    let mut image = vec![RGB::black(); 3];
    let res = renderer.update(&mut image);
    assert!(image.is_empty());
    assert_eq!(res.image_size, IPoint::new(0, 0));
    assert_eq!(res.progress, Progress { done: 0, total: 0 });
    assert!(res.progress.is_complete());
    assert_eq!(renderer.stage(), 0);
    for stage in 1..STAGES {
        exhaust(&mut renderer);
        renderer.update(&mut image);
        assert_eq!(renderer.stage(), stage);
    }
    exhaust(&mut renderer);
    renderer.update(&mut image);
    assert_eq!(renderer.stage(), STAGES - 1);
    assert!(image.is_empty());
}

#[test]
fn resize_takes_the_viewport_and_starts_at_the_first_stage() {
    let mut renderer = Renderer::with_workers(3);
    renderer.resize(Size::new(256, 256), focus());
    assert_eq!(renderer.size(), Size::new(256, 256));
    assert_eq!(renderer.focus(), focus());
    assert_eq!(renderer.stage(), 0);
    let mut image = Vec::new();
    let res = renderer.update(&mut image);
    assert_eq!(res.image_size, IPoint::new(32, 32));
    assert_eq!(image, vec![RGB::transparent(); 1024]);
    assert_eq!(res.progress, Progress { done: 0, total: 3 * 87040 });
}

#[test]
fn resize_with_what_the_renderer_has_changes_nothing() {
    let mut renderer = Renderer::with_workers(3);
    let mut twin = Renderer::with_workers(3);
    for r in [&mut renderer, &mut twin] {
        r.resize(Size::new(256, 256), focus());
        exhaust(r);
        let mut image = Vec::new();
        r.update(&mut image);
        assert_eq!(r.stage(), 1);
        step(r, 0);
        step(r, 0);
        step(r, 2);
    }
    let held = match renderer.claim(1) {
        Claim::Batch(ticket) => ticket,
        other => panic!("expected a batch, found {:?}", other),
    };
    assert_eq!(twin.claim(1), Claim::Batch(held));

    renderer.resize(Size::new(256, 256), focus());

    assert_eq!(renderer.stage(), 1);
    assert_eq!(renderer.size(), twin.size());
    assert_eq!(renderer.focus(), twin.focus());
    for id in 0..3 {
        assert_eq!(renderer.claim(id), twin.claim(id));
    }
    assert!(renderer.commit(1, &held, &compute(&held)));
    assert!(twin.commit(1, &held, &compute(&held)));
    let mut image = vec![RGB::black(); 64 * 64];
    let mut twin_image = vec![RGB::black(); 64 * 64];
    let res = renderer.update(&mut image);
    let twin_res = twin.update(&mut twin_image);
    assert_eq!(res, twin_res);
    assert_eq!(image, twin_image);
}

#[test]
fn update_reports_the_mean_of_what_the_workers_count_as_done() {
    let mut renderer = Renderer::with_workers(2);
    renderer.resize(Size::new(40, 40), focus());
    let mut image = Vec::new();
    assert_eq!(renderer.update(&mut image).progress, Progress { done: 0, total: 4250 });
    assert!(step(&mut renderer, 0));
    assert_eq!(renderer.update(&mut image).progress, Progress { done: 25, total: 4250 });
    assert!(!step(&mut renderer, 0));
    assert_eq!(renderer.update(&mut image).progress, Progress { done: 25, total: 4250 });
    assert_eq!(renderer.stage(), 0);
    assert!(!step(&mut renderer, 1));
    let res = renderer.update(&mut image);
    assert_eq!(res.progress, Progress { done: 50, total: 4250 });
    assert_eq!(renderer.stage(), 1);
    assert_eq!(res.image_size, IPoint::new(10, 10));
    assert_eq!(renderer.update(&mut image).progress, Progress { done: 50, total: 4250 });
}

#[test]
fn update_merges_the_batches_of_all_workers() {
    let size = Size::new(128, 128);
    let mut renderer = Renderer::with_workers(2);
    renderer.resize(size, focus());
    assert!(step(&mut renderer, 1));
    let mut image = Vec::new();
    let res = renderer.update(&mut image);
    assert_eq!(res.image_size, IPoint::new(16, 16));
    let whole = expected_stage(&focus(), &size, 0);
    for p in 0..256 {
        let expected = if (100..200).contains(&p) { whole[p] } else { RGB::transparent() };
        assert_eq!(image[p], expected, "pixel {}", p);
    }
    assert!(step(&mut renderer, 0));
    assert!(step(&mut renderer, 0));
    renderer.update(&mut image);
    assert_eq!(image, whole);
    assert_eq!(renderer.stage(), 0);
}

#[test]
fn update_discards_what_the_image_held_at_the_first_stage() {
    let mut renderer = Renderer::with_workers(2);
    renderer.resize(Size::new(128, 128), focus());
    let mut image = vec![RGB::black(); 256];
    renderer.update(&mut image);
    assert_eq!(image, vec![RGB::transparent(); 256]);
}

#[test]
fn update_keeps_the_preview_at_a_later_stage() {
    let size = Size::new(128, 128);
    let mut renderer = Renderer::with_workers(2);
    renderer.resize(size, focus());
    exhaust(&mut renderer);
    let mut image = Vec::new();
    let res = renderer.update(&mut image);
    assert_eq!(renderer.stage(), 1);
    assert_eq!(res.image_size, IPoint::new(32, 32));
    let coarse = expected_stage(&focus(), &size, 0);
    for y in 0..32 {
        for x in 0..32 {
            assert_eq!(image[x + 32 * y], coarse[x / 2 + 16 * (y / 2)], "pixel {} {}", x, y);
        }
    }
    let preview = image.clone();
    assert!(step(&mut renderer, 1));
    renderer.update(&mut image);
    let fine = expected_stage(&focus(), &size, 1);
    for p in 0..1024 {
        let expected = if (100..200).contains(&p) { fine[p] } else { preview[p] };
        assert_eq!(image[p], expected, "pixel {}", p);
    }
}

#[test]
fn update_discards_an_image_of_another_length_at_a_later_stage() {
    let size = Size::new(128, 128);
    let mut renderer = Renderer::with_workers(2);
    renderer.resize(size, focus());
    exhaust(&mut renderer);
    let mut image = Vec::new();
    renderer.update(&mut image);
    assert_eq!(renderer.stage(), 1);
    assert!(step(&mut renderer, 0));
    let mut other = vec![RGB::black(); 1000];
    let res = renderer.update(&mut other);
    assert_eq!(res.image_size, IPoint::new(32, 32));
    let fine = expected_stage(&focus(), &size, 1);
    for p in 0..1024 {
        let expected = if p < 100 { fine[p] } else { RGB::transparent() };
        assert_eq!(other[p], expected, "pixel {}", p);
    }
}

#[test]
fn update_does_not_move_on_before_every_worker_is_done() {
    let mut renderer = Renderer::with_workers(3);
    renderer.resize(Size::new(256, 256), focus());
    let mut image = Vec::new();
    while step(&mut renderer, 0) {}
    while step(&mut renderer, 1) {}
    renderer.update(&mut image);
    assert_eq!(renderer.stage(), 0);
    while step(&mut renderer, 2) {}
    let res = renderer.update(&mut image);
    assert_eq!(renderer.stage(), 1);
    assert_eq!(res.image_size, IPoint::new(64, 64));
    assert_eq!(image.len(), 64 * 64);
}

#[test]
fn update_stays_at_the_last_stage() {
    let mut renderer = Renderer::with_workers(2);
    renderer.resize(Size::new(16, 16), focus());
    let mut image = Vec::new();
    for _ in 0..10 {
        exhaust(&mut renderer);
        renderer.update(&mut image);
    }
    assert_eq!(renderer.stage(), STAGES - 1);
    let res = renderer.update(&mut image);
    assert_eq!(res.image_size, IPoint::new(16, 16));
    assert_eq!(res.progress, Progress { done: 2 * 340, total: 2 * 340 });
    assert_eq!(image, expected_stage(&focus(), &Size::new(16, 16), 3));
}

#[test]
fn a_tiny_viewport_whose_first_stages_are_empty_is_rendered() {
    let size = Size::new(5, 3);
    let mut renderer = Renderer::with_workers(2);
    renderer.resize(size, focus());
    let mut image = Vec::new();
    let mut sizes = Vec::new();
    for _ in 0..STAGES {
        exhaust(&mut renderer);
        sizes.push(renderer.update(&mut image).image_size);
    }
    assert_eq!(
        sizes,
        vec![IPoint::new(1, 0), IPoint::new(2, 1), IPoint::new(5, 3), IPoint::new(5, 3)]
    );
    assert_eq!(image, expected_stage(&focus(), &size, 3));
}

#[test]
fn stop_tells_every_worker_to_quit() {
    let mut renderer = Renderer::with_workers(3);
    renderer.resize(Size::new(256, 256), focus());
    assert!(step(&mut renderer, 1));
    renderer.stop();
    for id in 0..3 {
        assert_eq!(renderer.claim(id), Claim::Quit);
    }
    renderer.stop();
    for id in 0..3 {
        assert_eq!(renderer.claim(id), Claim::Quit);
    }
    let mut image = Vec::new();
    let res = renderer.update(&mut image);
    assert_eq!(res.progress, Progress { done: 300, total: 3 * 87040 });
    assert_eq!(renderer.stage(), 0);
}

#[test]
fn a_stopped_renderer_stays_stopped_through_a_resize() {
    let mut renderer = Renderer::with_workers(2);
    renderer.stop();
    renderer.resize(Size::new(256, 256), focus());
    assert_eq!(renderer.size(), Size::new(256, 256));
    assert_eq!(renderer.stage(), 0);
    for id in 0..2 {
        assert_eq!(renderer.claim(id), Claim::Quit);
    }
    let mut image = Vec::new();
    let res = renderer.update(&mut image);
    assert_eq!(res.image_size, IPoint::new(32, 32));
    assert_eq!(res.progress, Progress { done: 0, total: 2 * 87040 });
    assert_eq!(renderer.claim(0), Claim::Quit);
}

#[test]
fn batches_cover_every_pixel_of_a_stage_once() {
    let cases = [
        (256u32, 256u32, 1usize),
        (256, 256, 3),
        (256, 256, 4),
        (200, 8, 7),
        (808, 8, 2),
        (40, 40, 5),
    ];
    for &(width, height, workers) in &cases {
        let size = Size::new(width * 8, height * 8);
        let pixels = (width * height) as usize;
        let mut renderer = Renderer::with_workers(workers);
        renderer.resize(size, focus());
        let mut claimed = vec![0u32; pixels];
        for id in 0..workers {
            loop {
                match renderer.claim(id) {
                    Claim::Batch(ticket) => {
                        assert!(ticket.start < pixels);
                        for p in ticket.start..(ticket.start + BATCH).min(pixels) {
                            claimed[p] += 1;
                        }
                        assert!(renderer.commit(id, &ticket, &compute(&ticket)));
                    }
                    Claim::Idle => break,
                    Claim::Quit => panic!("the renderer was not stopped"),
                }
            }
        }
        assert!(claimed.iter().all(|&times| times == 1), "{}x{} by {}", width, height, workers);
        let mut image = Vec::new();
        renderer.update(&mut image);
        assert_eq!(renderer.stage(), 1);
    }
}
