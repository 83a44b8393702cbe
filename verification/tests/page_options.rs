use webapp::compat::{recovery_probe, selected_mock, simulates_context_loss, simulates_gpu_loss, MockDocument, RendererBackend};

#[test]
fn demo_document_follows_the_doc_parameter() {
    assert_eq!(selected_mock(""), MockDocument::Format);
    assert_eq!(selected_mock("?doc=easy"), MockDocument::Easy);
    assert_eq!(selected_mock("??tps=5&doc=stress"), MockDocument::Stress);
    assert_eq!(selected_mock("?doc=code&doc=easy"), MockDocument::Code);
    assert_eq!(selected_mock("?doc=EASY"), MockDocument::Format);
    assert_eq!(selected_mock("?xdoc=easy"), MockDocument::Format);
}

#[test]
fn gpu_loss_is_simulated_only_for_the_named_backend() {
    let search = "?renderer=webgl&simulate_gpu_loss=WebGL2";
    assert!(simulates_gpu_loss(search, RendererBackend::WebGl2));
    assert!(!simulates_gpu_loss(search, RendererBackend::WebGpu));
    assert!(simulates_gpu_loss("?simulate_gpu_loss=webgpu", RendererBackend::WebGpu));
    assert!(!simulates_gpu_loss("?simulate_gpu_loss=canvas", RendererBackend::Canvas2d));
    assert!(!simulates_gpu_loss("?simulate_gpu_loss", RendererBackend::WebGpu));
}

#[test]
fn webgl_context_loss_is_simulated_on_request() {
    assert!(simulates_context_loss("?simulate_webgl_context_loss=1", RendererBackend::WebGl2));
    assert!(simulates_context_loss("?a=b&simulate_webgl_context_loss=WEBGL", RendererBackend::WebGl2));
    assert!(!simulates_context_loss("?simulate_webgl_context_loss=1", RendererBackend::WebGpu));
    assert!(!simulates_context_loss("?simulate_webgl_context_loss=0", RendererBackend::WebGl2));
}

#[test]
fn recovery_probe_is_requested_explicitly() {
    assert!(recovery_probe("?recovery_probe=1"));
    assert!(recovery_probe("?renderer=webgpu&recovery_probe=true"));
    assert!(!recovery_probe("?recovery_probe=yes"));
    assert!(!recovery_probe(""));
}
