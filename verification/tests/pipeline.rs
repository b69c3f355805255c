use image_picker::prefetch::{Completion, DataLoader, Dispatch, Image};

fn paths(names: &[&str]) -> Vec<String> {
    names.iter().map(|n| n.to_string()).collect()
}

fn indices(orders: &[Dispatch]) -> Vec<usize> {
    orders.iter().map(|d| d.index).collect()
}

#[test]
fn reorder_buffer_withholds_out_of_order_completion() {
    // paths = [a.png, b.png, c.png], window = 2: b finishing first must be
    // withheld until a has been delivered.
    let mut loader: DataLoader<u32> = DataLoader::new(2, paths(&["a.png", "b.png", "c.png"]));
    let orders = loader.prefetch_images();
    assert_eq!(indices(&orders), vec![0, 1]);
    assert_eq!(orders[0].source, "a.png");
    assert_eq!(orders[1].source, "b.png");

    loader.harvest(Completion { index: 1, outcome: Ok(20u32) });
    assert!(!loader.can_deliver());
    assert!(loader.read_current().is_none());

    loader.harvest(Completion { index: 0, outcome: Ok(10u32) });
    let first = loader.read_current().expect("a must be ready now");
    assert_eq!(first.source, "a.png");
    assert_eq!(first.buffer, Ok(10));

    let more = loader.prefetch_images();
    assert_eq!(indices(&more), vec![2]);

    let second = loader.read_current().expect("b was already harvested");
    assert_eq!(second.source, "b.png");
    assert_eq!(second.buffer, Ok(20));
}

#[test]
fn order_preservation_under_scrambled_completions() {
    let names = ["one.png", "two.png", "three.png", "four.png", "five.png"];
    let mut loader: DataLoader<u32> = DataLoader::new(3, paths(&names));
    let mut pending: Vec<usize> = Vec::new();
    let mut delivered: Vec<Image<u32>> = Vec::new();

    // Complete always the newest outstanding dispatch first: the worst
    // completion order for a flat FIFO.
    while delivered.len() < names.len() {
        for d in loader.prefetch_images() {
            pending.push(d.index);
        }
        if let Some(item) = loader.read_current() {
            delivered.push(item);
        } else if let Some(idx) = pending.pop() {
            assert!(loader.is_pending(idx));
            loader.harvest(Completion { index: idx, outcome: Ok(idx as u32) });
        }
    }

    let sources: Vec<&str> = delivered.iter().map(|i| i.source.as_str()).collect();
    assert_eq!(sources, names.to_vec());
    for (k, item) in delivered.iter().enumerate() {
        assert_eq!(item.buffer, Ok(k as u32));
    }
}

#[test]
fn bounded_concurrency_never_exceeds_window() {
    let names = ["a", "b", "c", "d", "e", "f", "g", "h", "i", "j"];
    let window = 3usize;
    let mut loader: DataLoader<u32> = DataLoader::new(window, paths(&names));
    let mut pending: Vec<usize> = Vec::new();
    let mut seen = 0usize;

    while seen < names.len() {
        for d in loader.prefetch_images() {
            pending.push(d.index);
        }
        assert!(loader.in_flight_len() <= window);
        assert!(loader.in_flight_len() + loader.ready_len() <= window);
        // a second top-up in the same state must not dispatch anything
        assert!(loader.prefetch_images().is_empty());

        if let Some(_item) = loader.read_current() {
            seen += 1;
        } else if let Some(idx) = pending.pop() {
            loader.harvest(Completion { index: idx, outcome: Ok(0u32) });
            assert!(loader.in_flight_len() + loader.ready_len() <= window);
        }
    }
}

#[test]
fn exhaustion_is_terminal_and_idempotent() {
    let mut loader: DataLoader<u32> = DataLoader::new(1, paths(&["only"]));
    let orders = loader.prefetch_images();
    assert_eq!(indices(&orders), vec![0]);
    loader.harvest(Completion { index: 0, outcome: Ok(1u32) });
    assert!(loader.read_current().is_some());
    assert!(loader.is_exhausted());
    assert_eq!(loader.progress(), (1, 1));
    for _ in 0..3 {
        assert!(loader.read_current().is_none());
        assert!(loader.is_exhausted());
        assert_eq!(loader.progress(), (1, 1));
    }
    assert!(loader.prefetch_images().is_empty());
    assert_eq!(loader.in_flight_len(), 0);
}

#[test]
fn failed_decode_is_consumed_but_yields_no_image() {
    let mut loader: DataLoader<u32> = DataLoader::new(3, paths(&["a", "b", "c"]));
    for d in loader.prefetch_images() {
        let outcome = if d.index == 1 { Err(()) } else { Ok(d.index as u32) };
        loader.harvest(Completion { index: d.index, outcome });
    }
    let mut shown: Vec<String> = Vec::new();
    let mut pulls = 0usize;
    while let Some(item) = loader.read_current() {
        pulls += 1;
        if item.buffer.is_ok() {
            shown.push(item.source);
        }
    }
    // every path is consumed, but the failed one is never shown
    assert_eq!(pulls, 3);
    assert_eq!(shown, vec!["a".to_string(), "c".to_string()]);
    assert!(loader.is_exhausted());
}

#[test]
fn single_window_makes_progress_one_item_at_a_time() {
    let names = ["u", "v", "w"];
    let mut loader: DataLoader<u32> = DataLoader::new(1, paths(&names));
    for (k, name) in names.iter().enumerate() {
        let orders = loader.prefetch_images();
        assert_eq!(indices(&orders), vec![k]);
        assert!(loader.read_current().is_none());
        assert!(loader.needs_wait());
        loader.harvest(Completion { index: k, outcome: Ok(k as u32) });
        assert!(!loader.needs_wait());
        let item = loader.read_current().expect("the only outstanding item");
        assert_eq!(&item.source, name);
    }
    assert!(loader.is_exhausted());
}

#[test]
fn progress_is_monotone_and_bounded() {
    let names = ["a", "b", "c", "d"];
    let mut loader: DataLoader<u32> = DataLoader::new(2, paths(&names));
    let mut pending: Vec<usize> = Vec::new();
    let (mut last, total) = loader.progress();
    assert_eq!((last, total), (0, 4));

    while !loader.is_exhausted() {
        for d in loader.prefetch_images() {
            pending.push(d.index);
        }
        if loader.read_current().is_none() {
            if let Some(idx) = pending.pop() {
                loader.harvest(Completion { index: idx, outcome: Ok(0u32) });
            }
        }
        let (delivered, t) = loader.progress();
        assert_eq!(t, total);
        assert!(delivered >= last);
        assert!(delivered <= total);
        last = delivered;
    }
    assert_eq!(last, total);
}

#[test]
fn counters_track_the_pull_interface() {
    let mut loader: DataLoader<u32> = DataLoader::new(2, paths(&["x", "y"]));
    assert_eq!(loader.len(), 2);
    assert_eq!(loader.current(), 0);
    let _ = loader.prefetch_images();
    assert!(loader.is_pending(0));
    assert!(loader.is_pending(1));
    assert!(!loader.is_pending(2));
    loader.harvest(Completion { index: 0, outcome: Ok(5u32) });
    assert!(!loader.is_pending(0));
    assert!(loader.can_deliver());
    let _ = loader.read_current();
    assert_eq!(loader.current(), 1);
    assert_eq!(loader.len(), 2);
}
