use tictactoe::threads::{Job, JobQueue};

fn drain(queue: &mut JobQueue<u32>) -> Vec<Option<u32>> {
    let mut taken = Vec::new();
    while let Some(job) = queue.claim() {
        taken.push(match job {
            Job::NewJob(n) => Some(n),
            Job::Terminate => None,
        });
    }
    taken
}

#[test]
fn new_queue_is_empty() {
    let mut queue: JobQueue<u32> = JobQueue::new();
    assert_eq!(queue.len(), 0);
    assert!(queue.claim().is_none());
    assert_eq!(queue.len(), 0);
}

#[test]
fn jobs_come_out_in_the_order_of_submission() {
    let mut queue = JobQueue::new();
    for n in [3u32, 1, 2, 1] {
        queue.execute(n);
    }
    assert_eq!(queue.len(), 4);
    assert_eq!(drain(&mut queue), vec![Some(3), Some(1), Some(2), Some(1)]);
    assert_eq!(queue.len(), 0);
}

#[test]
fn terminate_puts_one_signal_per_worker_behind_the_jobs() {
    let mut queue = JobQueue::new();
    queue.execute(1u32);
    queue.execute(2);
    queue.terminate(3);
    assert_eq!(queue.len(), 5);
    queue.execute(9);
    assert_eq!(drain(&mut queue), vec![Some(1), Some(2), None, None, None, Some(9)]);
}

#[test]
fn terminate_for_no_worker_adds_nothing() {
    let mut queue: JobQueue<u32> = JobQueue::new();
    queue.terminate(0);
    assert_eq!(queue.len(), 0);
}

#[test]
fn every_job_is_taken_exactly_once() {
    let mut queue = JobQueue::new();
    let mut taken: Vec<u32> = Vec::new();
    let mut submitted: Vec<u32> = Vec::new();
    let mut next_job = 0u32;
    // Submissions and claims in a fixed, uneven interleaving.
    for round in 0..50usize {
        for _ in 0..(round % 4) {
            queue.execute(next_job);
            submitted.push(next_job);
            next_job += 1;
        }
        for _ in 0..((round * 7) % 3) {
            if let Some(Job::NewJob(n)) = queue.claim() {
                taken.push(n);
            }
        }
        assert_eq!(taken.len() + queue.len(), submitted.len());
    }
    while let Some(Job::NewJob(n)) = queue.claim() {
        taken.push(n);
    }
    assert_eq!(taken, submitted);
}

#[test]
fn queue_holds_closures() {
    let mut queue: JobQueue<Box<dyn FnOnce() -> u32>> = JobQueue::new();
    queue.execute(Box::new(|| 1));
    queue.execute(Box::new(|| 2));
    queue.terminate(1);
    let mut results = Vec::new();
    loop {
        match queue.claim() {
            Some(Job::NewJob(f)) => results.push(f()),
            Some(Job::Terminate) => break,
            None => panic!("the terminate signal is missing"),
        }
    }
    assert_eq!(results, vec![1, 2]);
}
