use purepic::queue::{task_identity, TaskQueueState, ThumbnailTask, WorkerStep};
use purepic::thumbnail::THUMBNAIL_QUEUE_CAPACITY;

fn test_task(index: usize) -> ThumbnailTask {
    ThumbnailTask {
        generation: 1,
        index,
        path: format!("{index}.jpg"),
        target_size_px: 88,
    }
}

fn pending_indices(state: &TaskQueueState) -> Vec<usize> {
    state.pending.iter().map(|task| task.index).collect()
}

#[test]
fn pending_work_is_bounded_and_replaced_by_the_latest_viewport() {
    let mut state = TaskQueueState::new();
    state.replace_pending((0..THUMBNAIL_QUEUE_CAPACITY + 5).map(test_task).collect());
    assert_eq!(state.pending.len(), THUMBNAIL_QUEUE_CAPACITY);

    let running = test_task(90);
    state.current = Some(task_identity(&running));
    state.replace_pending([90, 91, 92].map(test_task).to_vec());
    assert_eq!(pending_indices(&state), [91, 92]);
}

#[test]
fn worker_takes_tasks_in_order_and_marks_the_running_one() {
    let mut state = TaskQueueState::new();
    assert!(matches!(state.next_step(), WorkerStep::Wait));
    state.replace_pending([3, 4].map(test_task).to_vec());
    match state.next_step() {
        WorkerStep::Run(task) => assert_eq!(task.index, 3),
        _ => panic!("a waiting task was not handed out"),
    }
    assert_eq!(state.current, Some((1, 3, String::from("3.jpg"), 88)));
    assert_eq!(pending_indices(&state), [4]);
    state.replace_pending([3, 5].map(test_task).to_vec());
    assert_eq!(pending_indices(&state), [5]);
    state.finish_current();
    assert_eq!(state.current, None);
}

#[test]
fn closed_queue_stops_the_worker() {
    let mut state = TaskQueueState::new();
    state.replace_pending([1, 2].map(test_task).to_vec());
    state.close();
    assert!(state.pending.is_empty());
    assert!(matches!(state.next_step(), WorkerStep::Stop));
}

#[test]
fn a_task_differing_only_in_size_is_not_the_running_one() {
    let mut state = TaskQueueState::new();
    state.current = Some(task_identity(&test_task(7)));
    let mut larger = test_task(7);
    larger.target_size_px = 176;
    state.replace_pending(vec![larger]);
    assert_eq!(pending_indices(&state), [7]);
}
