# clash-cli

A command line wrapper around [mihomo](https://github.com/MetaCubeX/mihomo). It downloads
subscriptions, makes a runtime configuration of them, measures the proxies and keeps the
selector on the fastest one that answers. The proxying itself is left to mihomo.

The rules of the program stand in `src/`, a library verified with Verus:

- `config`: settings, their defaults, and what a command line changes in them
- `subscription`, `link`, `encoding`, `yaml`, `json`: reading subscriptions, which are Clash
  YAML documents or lists of `ss://` and `vmess://` links, as they stand or packed in Base64
- `filter`, `order`, `update`: one pool of the proxies of all subscriptions
- `runtime`, `emit`: the configuration that mihomo is started with, and its text
- `selector`, `api`: the choice of the fastest proxy, and the requests to the controller
- `supervise`: the course of a health check, of waiting for the controller and of a run
- `doctor`: the diagnosis
- `text`, `number`, `error`: what the others share

`app/` is the program around the library: the command line, files, processes and the
network. It performs what the library decides and hands back what came of it.

```
clash-cli "https://example.com/clash.yaml"   # save the subscription and start
clash-cli                                    # start with the last runtime configuration
clash-cli update | run | switch | check | paths | doctor
```
