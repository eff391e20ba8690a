//! The scheduler service against repositories that expect certain requests.
use std::cell::RefCell;
use std::sync::Arc;

use scheduler::dialogue::{Dialogue, Step};
use scheduler::error::{
    AgentSchedulerError, ClusterRepositoryError, QueueRepositoryError, SchedulerServiceError,
    TrainingJobRepositoryError,
};
use scheduler::model::{
    ClusterId, ClusterNode, JobId, NodeId, Queue, QueueId, ResourceRequirements, TrainingJob,
    TrainingJobStatus,
};
use scheduler::protocol::{Reply, Request};
use scheduler::service::SchedulerService;
use scheduler::time::Timestamp;

/// A repository that expects each of these requests once, in any order, and no others.
struct MockRepository {
    expected: RefCell<Vec<(Request, Reply)>>,
}

impl MockRepository {
    fn new() -> Self {
        MockRepository { expected: RefCell::new(Vec::new()) }
    }

    fn expect(&mut self, request: Request, reply: Reply) {
        self.expected.borrow_mut().push((request, reply));
    }

    fn perform(&self, request: Request) -> Reply {
        let mut expected = self.expected.borrow_mut();
        match expected.iter().position(|(candidate, _)| *candidate == request) {
            Some(i) => expected.remove(i).1,
            None => panic!("unexpected request {:?}", request),
        }
    }

    fn unmet(&self) -> usize {
        self.expected.borrow().len()
    }
}

/// A node as the agent adapter sees it.
struct AgentNode {
    id: NodeId,
    cluster_id: ClusterId,
    cpu_millicores: u64,
    memory_mb: u64,
}

/// An adapter that takes the first node of the cluster with enough capacity.
struct MockAdapter {
    nodes: Vec<AgentNode>,
    listed: RefCell<Vec<ClusterId>>,
    assigned: RefCell<Vec<(NodeId, JobId)>>,
    failing: Vec<ClusterId>,
}

impl MockAdapter {
    fn new(nodes: Vec<AgentNode>) -> Self {
        MockAdapter {
            nodes,
            listed: RefCell::new(Vec::new()),
            assigned: RefCell::new(Vec::new()),
            failing: Vec::new(),
        }
    }

    fn find_and_allocate_job(
        &self,
        job_id: JobId,
        cluster_id: ClusterId,
        needs: ResourceRequirements,
    ) -> Result<Option<NodeId>, AgentSchedulerError> {
        self.listed.borrow_mut().push(cluster_id);
        if self.failing.contains(&cluster_id) {
            return Err(AgentSchedulerError::Unknown("agent is down".to_string()));
        }
        for node in &self.nodes {
            if node.cluster_id == cluster_id
                && node.cpu_millicores >= needs.cpu_millicores
                && node.memory_mb >= needs.memory_mb
            {
                self.assigned.borrow_mut().push((node.id, job_id));
                return Ok(Some(node.id));
            }
        }
        Ok(None)
    }
}

type Service =
    SchedulerService<Arc<MockRepository>, Arc<MockRepository>, Arc<MockRepository>, Arc<MockAdapter>>;

fn build_service(
    job_repo: MockRepository,
    queue_repo: MockRepository,
    cluster_repo: MockRepository,
    agent_adapter: MockAdapter,
) -> Service {
    SchedulerService::new(
        Arc::new(job_repo),
        Arc::new(queue_repo),
        Arc::new(cluster_repo),
        Arc::new(agent_adapter),
    )
}

fn perform(service: &Service, request: Request) -> Reply {
    match request {
        Request::ListAllNodes
        | Request::GetClusterNodeById(_)
        | Request::DeleteClusterNode(_) => service.cluster_repo.perform(request),
        Request::GetAllQueuesSorted | Request::GetQueueById(_) => {
            service.queue_repo.perform(request)
        }
        Request::FindAndAllocateJob(job_id, cluster_id, needs) => Reply::Allocation(
            service.agent_adapter.find_and_allocate_job(job_id, cluster_id, needs),
        ),
        _ => service.job_repo.perform(request),
    }
}

/// Runs the operation to its end and returns the requests in order with the result.
fn run<M: Dialogue>(
    service: &Service,
    mut step: Step<M>,
) -> (Vec<Request>, Result<(), SchedulerServiceError>) {
    let mut requests = Vec::new();
    loop {
        match step {
            Step::Ask(request, machine) => {
                requests.push(request);
                let reply = perform(service, request);
                assert!(reply.is_answer_to(&request));
                step = machine.resume(reply);
            }
            Step::Done(result) => return (requests, result),
        }
    }
}

fn all_met(service: &Service) -> bool {
    service.job_repo.unmet() + service.queue_repo.unmet() + service.cluster_repo.unmet() == 0
}

/// The time that many seconds ago.
fn seconds_ago(seconds: i64) -> Timestamp {
    let then = chrono::Utc::now() - chrono::Duration::seconds(seconds);
    Timestamp::new(then.timestamp(), then.timestamp_subsec_nanos()).unwrap()
}

fn mock_node(id: u128) -> ClusterNode {
    ClusterNode {
        id: NodeId(id),
        heartbeat_timestamp: seconds_ago(0),
        assigned_job_id: None,
        reported_job_id: None,
    }
}

fn mock_job(id: u128) -> TrainingJob {
    TrainingJob {
        id: JobId(id),
        status: TrainingJobStatus::Queued,
        node_id: None,
        queue_id: None,
        resource_requirements: ResourceRequirements { cpu_millicores: 1000, memory_mb: 2048 },
    }
}

fn job_error(text: &str) -> TrainingJobRepositoryError {
    TrainingJobRepositoryError::Unknown(text.to_string())
}

fn cluster_error(text: &str) -> ClusterRepositoryError {
    ClusterRepositoryError::NotFound(text.to_string())
}

#[test]
fn cleanup_dead_nodes_requeues_jobs_and_deletes_stale_node() {
    let mut stale_node = mock_node(1);
    stale_node.heartbeat_timestamp = seconds_ago(91);
    stale_node.assigned_job_id = Some(JobId(11));
    stale_node.reported_job_id = Some(JobId(12));

    let assigned_job_id = stale_node.assigned_job_id.unwrap();
    let reported_job_id = stale_node.reported_job_id.unwrap();
    let stale_node_id = stale_node.id;

    let mut job_repo = MockRepository::new();
    job_repo.expect(Request::ResetJobStatus(assigned_job_id), Reply::JobWrite(Ok(())));
    job_repo.expect(Request::ResetJobStatus(reported_job_id), Reply::JobWrite(Ok(())));

    let queue_repo = MockRepository::new();

    let mut cluster_repo = MockRepository::new();
    cluster_repo.expect(Request::ListAllNodes, Reply::Nodes(Ok(vec![stale_node])));
    cluster_repo
        .expect(Request::DeleteClusterNode(stale_node_id), Reply::ClusterWrite(Ok(())));

    let service = build_service(job_repo, queue_repo, cluster_repo, MockAdapter::new(vec![]));
    let (requests, result) = run(&service, service.cleanup_dead_nodes());

    result.unwrap();
    assert!(all_met(&service));
    assert_eq!(
        requests,
        vec![
            Request::ListAllNodes,
            Request::ResetJobStatus(assigned_job_id),
            Request::ResetJobStatus(reported_job_id),
            Request::DeleteClusterNode(stale_node_id),
        ]
    );
}

#[test]
fn cleanup_dead_nodes_keeps_live_nodes_and_works_in_order() {
    let mut first = mock_node(1);
    first.assigned_job_id = Some(JobId(11));
    let mut second = mock_node(2);
    second.heartbeat_timestamp = seconds_ago(3600);
    let mut third = mock_node(3);
    third.heartbeat_timestamp = seconds_ago(30);
    third.reported_job_id = Some(JobId(13));
    let mut fourth = mock_node(4);
    fourth.heartbeat_timestamp = seconds_ago(100);
    fourth.reported_job_id = Some(JobId(14));

    let mut job_repo = MockRepository::new();
    job_repo.expect(Request::ResetJobStatus(JobId(14)), Reply::JobWrite(Ok(())));
    let mut cluster_repo = MockRepository::new();
    cluster_repo
        .expect(Request::ListAllNodes, Reply::Nodes(Ok(vec![first, second, third, fourth])));
    cluster_repo.expect(Request::DeleteClusterNode(NodeId(2)), Reply::ClusterWrite(Ok(())));
    cluster_repo.expect(Request::DeleteClusterNode(NodeId(4)), Reply::ClusterWrite(Ok(())));

    let service =
        build_service(job_repo, MockRepository::new(), cluster_repo, MockAdapter::new(vec![]));
    let (requests, result) = run(&service, service.cleanup_dead_nodes());

    assert_eq!(result, Ok(()));
    assert!(all_met(&service));
    assert_eq!(
        requests,
        vec![
            Request::ListAllNodes,
            Request::DeleteClusterNode(NodeId(2)),
            Request::ResetJobStatus(JobId(14)),
            Request::DeleteClusterNode(NodeId(4)),
        ]
    );
}

#[test]
fn cleanup_dead_nodes_stops_at_the_first_failure() {
    let mut first = mock_node(1);
    first.heartbeat_timestamp = seconds_ago(91);
    first.assigned_job_id = Some(JobId(11));
    first.reported_job_id = Some(JobId(12));
    let mut second = mock_node(2);
    second.heartbeat_timestamp = seconds_ago(91);

    let mut job_repo = MockRepository::new();
    job_repo.expect(Request::ResetJobStatus(JobId(11)), Reply::JobWrite(Err(job_error("reset"))));
    let mut cluster_repo = MockRepository::new();
    cluster_repo.expect(Request::ListAllNodes, Reply::Nodes(Ok(vec![first, second])));

    let service =
        build_service(job_repo, MockRepository::new(), cluster_repo, MockAdapter::new(vec![]));
    let (requests, result) = run(&service, service.cleanup_dead_nodes());

    assert_eq!(result, Err(SchedulerServiceError::Job(job_error("reset"))));
    assert_eq!(requests.len(), 2);
}

#[test]
fn cleanup_dead_nodes_reports_failures_of_the_cluster_repository() {
    let mut cluster_repo = MockRepository::new();
    cluster_repo.expect(Request::ListAllNodes, Reply::Nodes(Err(cluster_error("list"))));
    let service = build_service(
        MockRepository::new(),
        MockRepository::new(),
        cluster_repo,
        MockAdapter::new(vec![]),
    );
    let (_, result) = run(&service, service.cleanup_dead_nodes());
    assert_eq!(result, Err(SchedulerServiceError::Cluster(cluster_error("list"))));

    let mut dead = mock_node(1);
    dead.heartbeat_timestamp = seconds_ago(91);
    let mut cluster_repo = MockRepository::new();
    cluster_repo.expect(Request::ListAllNodes, Reply::Nodes(Ok(vec![dead])));
    cluster_repo.expect(
        Request::DeleteClusterNode(NodeId(1)),
        Reply::ClusterWrite(Err(cluster_error("delete"))),
    );
    let service = build_service(
        MockRepository::new(),
        MockRepository::new(),
        cluster_repo,
        MockAdapter::new(vec![]),
    );
    let (_, result) = run(&service, service.cleanup_dead_nodes());
    assert_eq!(result, Err(SchedulerServiceError::Cluster(cluster_error("delete"))));
}

#[test]
fn cleanup_stale_starting_jobs_cancels_when_queue_is_missing() {
    let mut job = mock_job(1);
    job.status = TrainingJobStatus::Starting;
    job.node_id = Some(NodeId(2));
    job.queue_id = Some(QueueId(3));

    let job_id = job.id;
    let node_id = job.node_id.unwrap();
    let queue_id = job.queue_id.unwrap();

    let mut job_repo = MockRepository::new();
    job_repo.expect(
        Request::GetJobsByStatus(TrainingJobStatus::Starting),
        Reply::Jobs(Ok(vec![job])),
    );
    job_repo.expect(
        Request::UpdateStatus(job_id, TrainingJobStatus::Cancelled),
        Reply::JobWrite(Ok(())),
    );

    let mut queue_repo = MockRepository::new();
    queue_repo.expect(
        Request::GetQueueById(queue_id),
        Reply::Queue(Err(QueueRepositoryError::NotFound("missing-queue".to_string()))),
    );

    let mut cluster_repo = MockRepository::new();
    cluster_repo.expect(Request::GetClusterNodeById(node_id), Reply::Node(Ok(mock_node(2))));

    let service = build_service(job_repo, queue_repo, cluster_repo, MockAdapter::new(vec![]));
    let (_, result) = run(&service, service.cleanup_stale_starting_jobs());

    result.unwrap();
    assert!(all_met(&service));
}

/// The requests for a starting job whose node and queue are found or not.
fn settle(
    node: Option<Result<ClusterNode, ClusterRepositoryError>>,
    queue: Option<Result<Queue, QueueRepositoryError>>,
    write: Option<(Request, Result<(), TrainingJobRepositoryError>)>,
) -> Result<(), SchedulerServiceError> {
    let mut job = mock_job(1);
    job.status = TrainingJobStatus::Starting;
    let mut job_repo = MockRepository::new();
    let mut queue_repo = MockRepository::new();
    let mut cluster_repo = MockRepository::new();
    if let Some(reply) = node {
        job.node_id = Some(NodeId(2));
        cluster_repo.expect(Request::GetClusterNodeById(NodeId(2)), Reply::Node(reply));
    }
    if let Some(reply) = queue {
        job.queue_id = Some(QueueId(3));
        queue_repo.expect(Request::GetQueueById(QueueId(3)), Reply::Queue(reply));
    }
    job_repo.expect(
        Request::GetJobsByStatus(TrainingJobStatus::Starting),
        Reply::Jobs(Ok(vec![job])),
    );
    if let Some((request, reply)) = write {
        job_repo.expect(request, Reply::JobWrite(reply));
    }
    let service = build_service(job_repo, queue_repo, cluster_repo, MockAdapter::new(vec![]));
    let (_, result) = run(&service, service.cleanup_stale_starting_jobs());
    assert!(all_met(&service));
    result
}

fn no_queue() -> Option<Result<Queue, QueueRepositoryError>> {
    Some(Err(QueueRepositoryError::NotFound("q".to_string())))
}

fn some_queue() -> Option<Result<Queue, QueueRepositoryError>> {
    Some(Ok(Queue { id: QueueId(3), cluster_targets: vec![] }))
}

#[test]
fn cleanup_stale_starting_jobs_settles_each_combination() {
    let cancel = Request::UpdateStatus(JobId(1), TrainingJobStatus::Cancelled);
    let requeue = Request::ResetJobStatus(JobId(1));
    let gone = || Some(Err(cluster_error("n")));
    let found = || Some(Ok(mock_node(2)));

    assert_eq!(settle(None, None, None), Ok(()));
    assert_eq!(settle(found(), None, None), Ok(()));
    assert_eq!(settle(None, some_queue(), None), Ok(()));
    assert_eq!(settle(found(), some_queue(), None), Ok(()));
    assert_eq!(settle(gone(), None, Some((requeue, Ok(())))), Ok(()));
    assert_eq!(settle(gone(), some_queue(), Some((requeue, Ok(())))), Ok(()));
    assert_eq!(settle(gone(), no_queue(), Some((cancel, Ok(())))), Ok(()));
    assert_eq!(settle(None, no_queue(), Some((cancel, Ok(())))), Ok(()));
    assert_eq!(
        settle(gone(), None, Some((requeue, Err(job_error("w"))))),
        Err(SchedulerServiceError::Job(job_error("w")))
    );
    assert_eq!(
        settle(None, no_queue(), Some((cancel, Err(job_error("w"))))),
        Err(SchedulerServiceError::Job(job_error("w")))
    );
}

#[test]
fn cleanup_stale_starting_jobs_goes_on_behind_a_settled_job() {
    let mut first = mock_job(1);
    first.node_id = Some(NodeId(5));
    let second = mock_job(2);
    let mut third = mock_job(3);
    third.queue_id = Some(QueueId(6));

    let mut job_repo = MockRepository::new();
    job_repo.expect(
        Request::GetJobsByStatus(TrainingJobStatus::Starting),
        Reply::Jobs(Ok(vec![first, second, third])),
    );
    job_repo.expect(Request::ResetJobStatus(JobId(1)), Reply::JobWrite(Ok(())));
    job_repo.expect(
        Request::UpdateStatus(JobId(3), TrainingJobStatus::Cancelled),
        Reply::JobWrite(Ok(())),
    );
    let mut queue_repo = MockRepository::new();
    queue_repo.expect(Request::GetQueueById(QueueId(6)), Reply::Queue(no_queue().unwrap()));
    let mut cluster_repo = MockRepository::new();
    cluster_repo
        .expect(Request::GetClusterNodeById(NodeId(5)), Reply::Node(Err(cluster_error("n"))));

    let service = build_service(job_repo, queue_repo, cluster_repo, MockAdapter::new(vec![]));
    let (requests, result) = run(&service, service.cleanup_stale_starting_jobs());
    assert_eq!(result, Ok(()));
    assert!(all_met(&service));
    assert_eq!(
        requests,
        vec![
            Request::GetJobsByStatus(TrainingJobStatus::Starting),
            Request::GetClusterNodeById(NodeId(5)),
            Request::ResetJobStatus(JobId(1)),
            Request::GetQueueById(QueueId(6)),
            Request::UpdateStatus(JobId(3), TrainingJobStatus::Cancelled),
        ]
    );
}

#[test]
fn run_that_is_cut_off_has_dealt_with_all_jobs_but_the_last() {
    let mut first = mock_job(1);
    first.queue_id = Some(QueueId(6));
    let mut second = mock_job(2);
    second.node_id = Some(NodeId(5));
    second.queue_id = Some(QueueId(6));
    let replies = || {
        vec![
            Reply::Jobs(Ok(vec![first, second])),
            Reply::Queue(no_queue().unwrap()),
            Reply::JobWrite(Ok(())),
            Reply::Node(Err(cluster_error("n"))),
            Reply::Queue(no_queue().unwrap()),
        ]
    };
    let whole = vec![
        Request::GetJobsByStatus(TrainingJobStatus::Starting),
        Request::GetQueueById(QueueId(6)),
        Request::UpdateStatus(JobId(1), TrainingJobStatus::Cancelled),
        Request::GetClusterNodeById(NodeId(5)),
        Request::GetQueueById(QueueId(6)),
        Request::UpdateStatus(JobId(2), TrainingJobStatus::Cancelled),
    ];
    let service = build_service(
        MockRepository::new(),
        MockRepository::new(),
        MockRepository::new(),
        MockAdapter::new(vec![]),
    );
    for length in 0..whole.len() {
        let mut step = service.cleanup_stale_starting_jobs();
        let mut requests = Vec::new();
        for reply in replies().into_iter().take(length) {
            match step {
                Step::Ask(request, machine) => {
                    requests.push(request);
                    assert!(reply.is_answer_to(&request));
                    step = machine.resume(reply);
                }
                Step::Done(_) => panic!("the run is not over"),
            }
        }
        assert_eq!(requests, whole[..length].to_vec());
        match step {
            Step::Ask(request, _) => assert_eq!(request, whole[length]),
            Step::Done(_) => panic!("the run is not over"),
        }
    }
}

#[test]
fn cleanup_preempted_jobs_requeues_non_terminal_reported_job() {
    let job = TrainingJob { status: TrainingJobStatus::Running, ..mock_job(1) };
    let job_id = job.id;

    let mut node = mock_node(2);
    node.assigned_job_id = None;
    node.reported_job_id = Some(job_id);

    let mut job_repo = MockRepository::new();
    job_repo.expect(Request::GetTrainingJobById(job_id), Reply::Job(Ok(job)));
    job_repo.expect(Request::ResetJobStatus(job_id), Reply::JobWrite(Ok(())));

    let queue_repo = MockRepository::new();

    let mut cluster_repo = MockRepository::new();
    cluster_repo.expect(Request::ListAllNodes, Reply::Nodes(Ok(vec![node])));

    let service = build_service(job_repo, queue_repo, cluster_repo, MockAdapter::new(vec![]));
    let (_, result) = run(&service, service.cleanup_preempted_jobs());

    result.unwrap();
    assert!(all_met(&service));
}

#[test]
fn cleanup_preempted_jobs_leaves_jobs_that_are_over() {
    let mut nodes = Vec::new();
    let mut job_repo = MockRepository::new();
    let over =
        [TrainingJobStatus::Succeeded, TrainingJobStatus::Failed, TrainingJobStatus::Cancelled];
    for (i, status) in over.into_iter().enumerate() {
        let id = i as u128 + 10;
        let mut node = mock_node(id);
        node.reported_job_id = Some(JobId(id));
        nodes.push(node);
        let job = TrainingJob { status, ..mock_job(id) };
        job_repo.expect(Request::GetTrainingJobById(JobId(id)), Reply::Job(Ok(job)));
    }
    // Assigned, so not preempted.
    let mut busy = mock_node(20);
    busy.assigned_job_id = Some(JobId(20));
    busy.reported_job_id = Some(JobId(21));
    nodes.push(busy);
    // The record that was looked up names the job.
    let mut renamed = mock_node(30);
    renamed.reported_job_id = Some(JobId(30));
    nodes.push(renamed);
    job_repo.expect(Request::GetTrainingJobById(JobId(30)), Reply::Job(Ok(mock_job(31))));
    job_repo.expect(Request::ResetJobStatus(JobId(31)), Reply::JobWrite(Ok(())));

    let mut cluster_repo = MockRepository::new();
    cluster_repo.expect(Request::ListAllNodes, Reply::Nodes(Ok(nodes)));
    let service =
        build_service(job_repo, MockRepository::new(), cluster_repo, MockAdapter::new(vec![]));
    let (_, result) = run(&service, service.cleanup_preempted_jobs());
    assert_eq!(result, Ok(()));
    assert!(all_met(&service));
}

#[test]
fn cleanup_preempted_jobs_stops_when_a_lookup_fails() {
    let mut first = mock_node(1);
    first.reported_job_id = Some(JobId(11));
    let mut second = mock_node(2);
    second.reported_job_id = Some(JobId(12));
    let mut job_repo = MockRepository::new();
    let missing = || TrainingJobRepositoryError::NotFound("11".to_string());
    job_repo.expect(Request::GetTrainingJobById(JobId(11)), Reply::Job(Err(missing())));
    let mut cluster_repo = MockRepository::new();
    cluster_repo.expect(Request::ListAllNodes, Reply::Nodes(Ok(vec![first, second])));
    let service =
        build_service(job_repo, MockRepository::new(), cluster_repo, MockAdapter::new(vec![]));
    let (requests, result) = run(&service, service.cleanup_preempted_jobs());
    assert_eq!(result, Err(SchedulerServiceError::Job(missing())));
    assert_eq!(requests.len(), 2);
}

#[test]
fn cleanup_orphaned_queued_jobs_cancels_jobs_without_queue() {
    let queued = TrainingJob { queue_id: Some(QueueId(5)), ..mock_job(2) };
    let mut job_repo = MockRepository::new();
    job_repo.expect(
        Request::GetJobsByStatus(TrainingJobStatus::Queued),
        Reply::Jobs(Ok(vec![mock_job(1), queued, mock_job(3)])),
    );
    for id in [1, 3] {
        job_repo.expect(
            Request::UpdateStatus(JobId(id), TrainingJobStatus::Cancelled),
            Reply::JobWrite(Ok(())),
        );
    }
    let service = build_service(
        job_repo,
        MockRepository::new(),
        MockRepository::new(),
        MockAdapter::new(vec![]),
    );
    let (requests, result) = run(&service, service.cleanup_orphaned_queued_jobs());
    assert_eq!(result, Ok(()));
    assert!(all_met(&service));
    assert_eq!(
        requests[1..],
        [
            Request::UpdateStatus(JobId(1), TrainingJobStatus::Cancelled),
            Request::UpdateStatus(JobId(3), TrainingJobStatus::Cancelled),
        ]
    );
}

#[test]
fn cleanup_orphaned_queued_jobs_stops_at_the_first_failure() {
    let mut job_repo = MockRepository::new();
    job_repo.expect(
        Request::GetJobsByStatus(TrainingJobStatus::Queued),
        Reply::Jobs(Ok(vec![mock_job(1), mock_job(2)])),
    );
    job_repo.expect(
        Request::UpdateStatus(JobId(1), TrainingJobStatus::Cancelled),
        Reply::JobWrite(Err(job_error("cancel"))),
    );
    let service = build_service(
        job_repo,
        MockRepository::new(),
        MockRepository::new(),
        MockAdapter::new(vec![]),
    );
    let (requests, result) = run(&service, service.cleanup_orphaned_queued_jobs());
    assert_eq!(result, Err(SchedulerServiceError::Job(job_error("cancel"))));
    assert_eq!(requests.len(), 2);
}

/// Expects the lists of a cycle in which no cleanup has anything to do.
fn expect_idle_cleanups(job_repo: &mut MockRepository, cluster_repo: &mut MockRepository) {
    for status in [TrainingJobStatus::Starting, TrainingJobStatus::Queued] {
        job_repo.expect(Request::GetJobsByStatus(status), Reply::Jobs(Ok(vec![])));
    }
    for _ in 0..2 {
        cluster_repo.expect(Request::ListAllNodes, Reply::Nodes(Ok(vec![])));
    }
}

#[test]
fn run_cycle_marks_job_starting_when_agent_finds_capacity() {
    let cluster_id = ClusterId(1);

    let queue = Queue { id: QueueId(2), cluster_targets: vec![cluster_id] };
    let queue_id = queue.id;

    let mut job = mock_job(3);
    job.queue_id = Some(queue_id);
    let job_id = job.id;
    let resource_requirements = job.resource_requirements;

    let schedulable_node = AgentNode {
        id: NodeId(4),
        cluster_id,
        cpu_millicores: resource_requirements.cpu_millicores,
        memory_mb: resource_requirements.memory_mb,
    };
    let node_id = schedulable_node.id;

    let mut job_repo = MockRepository::new();
    let mut cluster_repo = MockRepository::new();
    expect_idle_cleanups(&mut job_repo, &mut cluster_repo);
    job_repo.expect(Request::GetQueuedJobsForQueue(queue_id), Reply::Jobs(Ok(vec![job])));
    job_repo.expect(Request::MarkAsStarting(job_id, node_id), Reply::JobWrite(Ok(())));

    let mut queue_repo = MockRepository::new();
    queue_repo.expect(Request::GetAllQueuesSorted, Reply::Queues(Ok(vec![queue])));

    let adapter = MockAdapter::new(vec![schedulable_node]);
    let service = build_service(job_repo, queue_repo, cluster_repo, adapter);
    let (_, result) = run(&service, service.run_cycle());

    result.unwrap();
    assert!(all_met(&service));
    assert_eq!(*service.agent_adapter.listed.borrow(), vec![cluster_id]);
    assert_eq!(*service.agent_adapter.assigned.borrow(), vec![(node_id, job_id)]);
}

#[test]
fn run_cycle_tries_clusters_in_order_and_survives_failed_searches() {
    let node = |id: u128, cluster: u128| AgentNode {
        id: NodeId(id),
        cluster_id: ClusterId(cluster),
        cpu_millicores: 1000,
        memory_mb: 2048,
    };
    // The first cluster is empty, the second fails, the third and the fourth have a node.
    let mut adapter = MockAdapter::new(vec![node(33, 3), node(44, 4)]);
    adapter.failing.push(ClusterId(2));

    let huge = TrainingJob {
        resource_requirements: ResourceRequirements { cpu_millicores: 9999, memory_mb: 1 },
        ..mock_job(8)
    };
    let first = Queue {
        id: QueueId(1),
        cluster_targets: vec![ClusterId(1), ClusterId(2), ClusterId(3), ClusterId(4)],
    };
    let second = Queue { id: QueueId(2), cluster_targets: vec![ClusterId(4)] };
    let third = Queue { id: QueueId(3), cluster_targets: vec![] };

    let mut job_repo = MockRepository::new();
    let mut cluster_repo = MockRepository::new();
    expect_idle_cleanups(&mut job_repo, &mut cluster_repo);
    job_repo.expect(
        Request::GetQueuedJobsForQueue(QueueId(1)),
        Reply::Jobs(Ok(vec![huge, mock_job(7)])),
    );
    job_repo.expect(Request::GetQueuedJobsForQueue(QueueId(2)), Reply::Jobs(Ok(vec![])));
    job_repo
        .expect(Request::GetQueuedJobsForQueue(QueueId(3)), Reply::Jobs(Ok(vec![mock_job(6)])));
    job_repo.expect(Request::MarkAsStarting(JobId(7), NodeId(33)), Reply::JobWrite(Ok(())));
    let mut queue_repo = MockRepository::new();
    queue_repo.expect(Request::GetAllQueuesSorted, Reply::Queues(Ok(vec![first, second, third])));

    let service = build_service(job_repo, queue_repo, cluster_repo, adapter);
    let (requests, result) = run(&service, service.run_cycle());
    assert_eq!(result, Ok(()));
    assert!(all_met(&service));
    let search = |job: u128, cluster: u128, cpu: u64, memory: u64| {
        let needs = ResourceRequirements { cpu_millicores: cpu, memory_mb: memory };
        Request::FindAndAllocateJob(JobId(job), ClusterId(cluster), needs)
    };
    assert_eq!(
        requests,
        vec![
            Request::ListAllNodes,
            Request::GetJobsByStatus(TrainingJobStatus::Starting),
            Request::ListAllNodes,
            Request::GetJobsByStatus(TrainingJobStatus::Queued),
            Request::GetAllQueuesSorted,
            Request::GetQueuedJobsForQueue(QueueId(1)),
            search(8, 1, 9999, 1),
            search(8, 2, 9999, 1),
            search(8, 3, 9999, 1),
            search(8, 4, 9999, 1),
            search(7, 1, 1000, 2048),
            search(7, 2, 1000, 2048),
            search(7, 3, 1000, 2048),
            Request::MarkAsStarting(JobId(7), NodeId(33)),
            Request::GetQueuedJobsForQueue(QueueId(2)),
            Request::GetQueuedJobsForQueue(QueueId(3)),
        ]
    );
}

#[test]
fn run_cycle_places_jobs_though_all_cleanups_fail() {
    let mut job_repo = MockRepository::new();
    for status in [TrainingJobStatus::Starting, TrainingJobStatus::Queued] {
        job_repo.expect(Request::GetJobsByStatus(status), Reply::Jobs(Err(job_error("list"))));
    }
    job_repo.expect(
        Request::GetQueuedJobsForQueue(QueueId(1)),
        Reply::Jobs(Ok(vec![mock_job(7)])),
    );
    job_repo.expect(Request::MarkAsStarting(JobId(7), NodeId(9)), Reply::JobWrite(Ok(())));
    let mut cluster_repo = MockRepository::new();
    for _ in 0..2 {
        cluster_repo.expect(Request::ListAllNodes, Reply::Nodes(Err(cluster_error("list"))));
    }
    let mut queue_repo = MockRepository::new();
    let queue = Queue { id: QueueId(1), cluster_targets: vec![ClusterId(5)] };
    queue_repo.expect(Request::GetAllQueuesSorted, Reply::Queues(Ok(vec![queue])));
    let adapter = MockAdapter::new(vec![AgentNode {
        id: NodeId(9),
        cluster_id: ClusterId(5),
        cpu_millicores: 1000,
        memory_mb: 2048,
    }]);
    let service = build_service(job_repo, queue_repo, cluster_repo, adapter);
    let (_, result) = run(&service, service.run_cycle());
    assert_eq!(result, Ok(()));
    assert!(all_met(&service));
}

#[test]
fn run_cycle_fails_when_queues_cannot_be_listed() {
    let mut job_repo = MockRepository::new();
    let mut cluster_repo = MockRepository::new();
    expect_idle_cleanups(&mut job_repo, &mut cluster_repo);
    let mut queue_repo = MockRepository::new();
    let down = || QueueRepositoryError::Unknown("down".to_string());
    queue_repo.expect(Request::GetAllQueuesSorted, Reply::Queues(Err(down())));
    let service = build_service(job_repo, queue_repo, cluster_repo, MockAdapter::new(vec![]));
    let (_, result) = run(&service, service.run_cycle());
    assert_eq!(result, Err(SchedulerServiceError::Queue(down())));
    assert!(all_met(&service));
}

#[test]
fn run_cycle_fails_when_the_jobs_of_a_queue_cannot_be_listed() {
    let mut job_repo = MockRepository::new();
    let mut cluster_repo = MockRepository::new();
    expect_idle_cleanups(&mut job_repo, &mut cluster_repo);
    job_repo.expect(
        Request::GetQueuedJobsForQueue(QueueId(1)),
        Reply::Jobs(Err(job_error("queue"))),
    );
    let mut queue_repo = MockRepository::new();
    let queues = vec![
        Queue { id: QueueId(1), cluster_targets: vec![] },
        Queue { id: QueueId(2), cluster_targets: vec![] },
    ];
    queue_repo.expect(Request::GetAllQueuesSorted, Reply::Queues(Ok(queues)));
    let service = build_service(job_repo, queue_repo, cluster_repo, MockAdapter::new(vec![]));
    let (_, result) = run(&service, service.run_cycle());
    assert_eq!(result, Err(SchedulerServiceError::Job(job_error("queue"))));
    assert!(all_met(&service));
}

#[test]
fn run_cycle_fails_when_a_job_cannot_be_marked() {
    let mut job_repo = MockRepository::new();
    let mut cluster_repo = MockRepository::new();
    expect_idle_cleanups(&mut job_repo, &mut cluster_repo);
    job_repo.expect(
        Request::GetQueuedJobsForQueue(QueueId(1)),
        Reply::Jobs(Ok(vec![mock_job(7), mock_job(8)])),
    );
    job_repo.expect(
        Request::MarkAsStarting(JobId(7), NodeId(9)),
        Reply::JobWrite(Err(job_error("mark"))),
    );
    let mut queue_repo = MockRepository::new();
    let queue = Queue { id: QueueId(1), cluster_targets: vec![ClusterId(5)] };
    queue_repo.expect(Request::GetAllQueuesSorted, Reply::Queues(Ok(vec![queue])));
    let adapter = MockAdapter::new(vec![AgentNode {
        id: NodeId(9),
        cluster_id: ClusterId(5),
        cpu_millicores: 1000,
        memory_mb: 2048,
    }]);
    let service = build_service(job_repo, queue_repo, cluster_repo, adapter);
    let (_, result) = run(&service, service.run_cycle());
    assert_eq!(result, Err(SchedulerServiceError::Job(job_error("mark"))));
    assert!(all_met(&service));
    assert_eq!(*service.agent_adapter.listed.borrow(), vec![ClusterId(5)]);
}

#[test]
fn errors_of_the_parts_become_errors_of_the_service() {
    assert_eq!(
        SchedulerServiceError::from(job_error("x")),
        SchedulerServiceError::Job(job_error("x"))
    );
    assert_eq!(
        SchedulerServiceError::from(QueueRepositoryError::NotFound("x".to_string())),
        SchedulerServiceError::Queue(QueueRepositoryError::NotFound("x".to_string()))
    );
    assert_eq!(
        SchedulerServiceError::from(cluster_error("x")),
        SchedulerServiceError::Cluster(cluster_error("x"))
    );
    assert_eq!(
        SchedulerServiceError::from(AgentSchedulerError::Unknown("x".to_string())),
        SchedulerServiceError::Agent(AgentSchedulerError::Unknown("x".to_string()))
    );
}

#[test]
fn replies_fit_their_requests_only() {
    assert!(Reply::JobWrite(Ok(())).is_answer_to(&Request::MarkAsStarting(JobId(1), NodeId(1))));
    assert!(!Reply::JobWrite(Ok(())).is_answer_to(&Request::DeleteClusterNode(NodeId(1))));
    assert!(Reply::Allocation(Ok(None)).is_answer_to(&Request::FindAndAllocateJob(
        JobId(1),
        ClusterId(1),
        ResourceRequirements { cpu_millicores: 0, memory_mb: 0 },
    )));
    assert!(!Reply::Nodes(Ok(vec![])).is_answer_to(&Request::GetAllQueuesSorted));
}
