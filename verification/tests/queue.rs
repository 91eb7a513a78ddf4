use hypercube_optimizer::evaluation::PointEval;
use hypercube_optimizer::point::Point;
use hypercube_optimizer::queue::BestQueue;

/// The evaluation of a point that carries `tag` with the value `value`.
fn eval(tag: i64, value: i64) -> PointEval {
    PointEval::new(Point::from_vec(vec![tag]), value)
}

#[test]
fn an_empty_queue_has_no_best() {
    let mut queue = BestQueue::new();
    assert!(queue.is_empty());
    assert_eq!(queue.len(), 0);
    assert_eq!(queue.peek(), None);
    assert_eq!(queue.pop(), None);
}

#[test]
fn the_best_comes_out_first() {
    let mut queue = BestQueue::new();
    let values = [5, -3, 12, 7, 12, 0, -8, 3];
    for (tag, value) in values.iter().enumerate() {
        queue.push(eval(tag as i64, *value));
        assert_eq!(queue.len(), tag + 1);
    }
    assert_eq!(queue.peek().unwrap().get_eval(), 12);

    let mut popped = Vec::new();
    while let Some(best) = queue.pop() {
        popped.push(best.get_eval());
    }

    assert_eq!(popped, vec![12, 12, 7, 5, 3, 0, -3, -8]);
    assert!(queue.is_empty());
}

#[test]
fn every_member_comes_out_once() {
    let mut queue = BestQueue::new();
    for tag in 0..50 {
        queue.push(eval(tag, (tag * 37) % 11));
    }
    let mut tags = Vec::new();
    let mut last = i64::MAX;
    while let Some(best) = queue.pop() {
        assert!(best.get_eval() <= last);
        last = best.get_eval();
        let tag = best.get_point().to_vec()[0];
        assert_eq!(best.get_eval(), (tag * 37) % 11);
        tags.push(tag);
    }
    tags.sort();
    assert_eq!(tags, (0..50).collect::<Vec<i64>>());
}

#[test]
fn peek_leaves_the_queue_as_it_is() {
    let mut queue = BestQueue::new();
    queue.push(eval(1, 4));
    queue.push(eval(2, 9));
    assert_eq!(queue.peek().unwrap().get_point().to_vec(), vec![2]);
    assert_eq!(queue.peek().unwrap().get_eval(), 9);
    assert_eq!(queue.len(), 2);
}

#[test]
fn clear_and_clone() {
    let mut queue = BestQueue::new();
    queue.push(eval(1, 4));
    queue.push(eval(2, 9));
    let mut copy = queue.clone();
    queue.clear();
    assert!(queue.is_empty());
    assert_eq!(queue.peek(), None);
    assert_eq!(copy.len(), 2);
    assert_eq!(copy.pop().unwrap().get_eval(), 9);
    assert_eq!(copy.pop().unwrap().get_eval(), 4);
    assert_eq!(copy.pop(), None);
}
